//! Copies of single files, each with a buffer of its own.

use crate::depth::DepthLimits;
use crate::pipeline::{PipelineProcessor, ProcessorView};
use crate::task::CopyStats;
use crate::worker_pipeline::{max_int, min_int};
use vstd::prelude::*;

verus! {

/// What a copier was made with, and what it has done.
#[verifier::ext_equal]
pub struct CopierView {
    pub mount_point: Seq<char>,
    pub block_size: int,
    pub min_pipeline_depth: int,
    pub max_pipeline_depth: int,
    pub max_iov_size: int,
    pub stats: CopyStats,
    pub show_progress: bool,
    pub preserve_attrs: bool,
    pub debug: bool,
}

impl CopierView {
    /// The buffer for a file of `file_size` bytes: as large as the file, but at
    /// least a block, and never more than the user allows.
    pub open spec fn iov_size(self, file_size: int) -> int {
        min_int(max_int(file_size, self.block_size), self.max_iov_size)
    }
}

/// Copies files, each with a buffer of its own.
pub struct USRBIOCopier {
    mount_point: String,
    block_size: usize,
    min_pipeline_depth: usize,
    max_pipeline_depth: usize,
    max_iov_size: usize,
    stats: CopyStats,
    show_progress: bool,
    preserve_attrs: bool,
    debug: bool,
}

impl View for USRBIOCopier {
    type V = CopierView;

    closed spec fn view(&self) -> CopierView {
        CopierView {
            mount_point: self.mount_point@,
            block_size: self.block_size as int,
            min_pipeline_depth: self.min_pipeline_depth as int,
            max_pipeline_depth: self.max_pipeline_depth as int,
            max_iov_size: self.max_iov_size as int,
            stats: self.stats,
            show_progress: self.show_progress,
            preserve_attrs: self.preserve_attrs,
            debug: self.debug,
        }
    }
}

/// How a file is copied, once its target has been created.
pub enum CopierPlan {
    /// There is nothing to copy, but for the permissions of the source where they
    /// are wanted.
    Empty { set_permissions: bool },
    /// The file goes through the pipeline, with a buffer of `iov_size` bytes. Then
    /// the target is synchronised, and it gets the permissions of the source where
    /// they are wanted.
    Pipelined { iov_size: usize, processor: PipelineProcessor, set_permissions: bool },
}

/// What a copier's plan says.
#[verifier::ext_equal]
pub enum CopierPlanView {
    Empty { set_permissions: bool },
    Pipelined { iov_size: int, processor: ProcessorView, set_permissions: bool },
}

impl View for CopierPlan {
    type V = CopierPlanView;

    open spec fn view(&self) -> CopierPlanView {
        match self {
            CopierPlan::Empty { set_permissions } => CopierPlanView::Empty {
                set_permissions: *set_permissions,
            },
            CopierPlan::Pipelined {
                iov_size,
                processor,
                set_permissions,
            } => CopierPlanView::Pipelined {
                iov_size: *iov_size as int,
                processor: processor@,
                set_permissions: *set_permissions,
            },
        }
    }
}

impl CopierView {
    /// The plan for a file of `file_size` bytes.
    pub open spec fn plan(self, file_size: int) -> CopierPlanView {
        if file_size == 0 {
            CopierPlanView::Empty { set_permissions: self.preserve_attrs }
        } else {
            CopierPlanView::Pipelined {
                iov_size: self.iov_size(file_size),
                processor: ProcessorView {
                    mount_point: self.mount_point,
                    limits: DepthLimits {
                        block_size: self.block_size as usize,
                        min_depth: self.min_pipeline_depth as usize,
                        max_depth: self.max_pipeline_depth as usize,
                        iov_size: self.iov_size(file_size) as usize,
                    },
                    debug: self.debug,
                },
                set_permissions: self.preserve_attrs,
            }
        }
    }

    /// So many bytes more were copied. The count begins anew at zero where it gets
    /// too large.
    pub open spec fn with_bytes(self, bytes: u64) -> CopierView {
        CopierView {
            stats: CopyStats {
                bytes_copied: self.stats.bytes_copied.wrapping_add(bytes),
                ..self.stats
            },
            ..self
        }
    }

    /// The copier is done with a file. It counts if it was copied and there was
    /// something to copy. The count begins anew at zero where it gets too large.
    pub open spec fn with_file(self, file_size: u64, copied: bool) -> CopierView {
        CopierView {
            stats: CopyStats {
                files_copied: if copied && file_size > 0 {
                    self.stats.files_copied.wrapping_add(1)
                } else {
                    self.stats.files_copied
                },
                ..self.stats
            },
            ..self
        }
    }

    /// The line that is shown for a message, if one is.
    pub open spec fn debug_line(self, message: Seq<char>) -> Option<Seq<char>> {
        if self.debug && self.show_progress {
            Some("[DEBUG] "@ + message)
        } else {
            None
        }
    }

    /// The words for an error.
    pub open spec fn error_text(
        self,
        prefix: Seq<char>,
        context: Seq<char>,
        backtrace: Seq<char>,
    ) -> Seq<char> {
        if self.debug {
            prefix + "\n[DEBUG] "@ + context + "\nBacktrace:\n"@ + backtrace
        } else {
            prefix + ": "@ + context
        }
    }
}

impl USRBIOCopier {
    /// A copier for the file system that is mounted at `mount_point`.
    pub fn new(
        mount_point: String,
        block_size: usize,
        min_pipeline_depth: usize,
        max_pipeline_depth: usize,
        max_iov_size: usize,
        stats: CopyStats,
        show_progress: bool,
        preserve_attrs: bool,
        debug: bool,
    ) -> (r: Self)
        ensures
            r@ == (CopierView {
                mount_point: mount_point@,
                block_size: block_size as int,
                min_pipeline_depth: min_pipeline_depth as int,
                max_pipeline_depth: max_pipeline_depth as int,
                max_iov_size: max_iov_size as int,
                stats,
                show_progress,
                preserve_attrs,
                debug,
            }),
    {
        USRBIOCopier {
            mount_point,
            block_size,
            min_pipeline_depth,
            max_pipeline_depth,
            max_iov_size,
            stats,
            show_progress,
            preserve_attrs,
            debug,
        }
    }

    /// The size of the buffer for a file of `file_size` bytes.
    pub fn calculate_iov_size(&self, file_size: u64) -> (r: usize)
        requires
            file_size <= usize::MAX,
        ensures
            r == self@.iov_size(file_size as int),
    {
        let size: usize = file_size as usize;
        let wanted: usize = if size <= self.block_size {
            self.block_size
        } else {
            size
        };
        if wanted <= self.max_iov_size {
            wanted
        } else {
            self.max_iov_size
        }
    }

    /// Plans the copy of a file of `file_size` bytes.
    pub fn copy_file(&self, file_size: u64) -> (r: CopierPlan)
        requires
            file_size <= usize::MAX,
        ensures
            r@ == self@.plan(file_size as int),
    {
        if file_size == 0 {
            return CopierPlan::Empty { set_permissions: self.preserve_attrs };
        }
        let iov_size = self.calculate_iov_size(file_size);
        let processor = PipelineProcessor::new(
            self.mount_point.clone(),
            self.block_size,
            self.min_pipeline_depth,
            self.max_pipeline_depth,
            iov_size,
            self.debug,
        );
        CopierPlan::Pipelined { iov_size, processor, set_permissions: self.preserve_attrs }
    }

    /// Counts bytes that were copied. The count begins anew at zero where it gets
    /// too large.
    pub fn count_bytes(&mut self, bytes: u64)
        ensures
            final(self)@ == old(self)@.with_bytes(bytes),
    {
        self.stats.bytes_copied = self.stats.bytes_copied.wrapping_add(bytes);
    }

    /// Counts a file of `file_size` bytes, if it was copied and there was something
    /// to copy. The count begins anew at zero where it gets too large.
    pub fn finished(&mut self, file_size: u64, copied: bool)
        ensures
            final(self)@ == old(self)@.with_file(file_size, copied),
    {
        if copied && file_size > 0 {
            self.stats.files_copied = self.stats.files_copied.wrapping_add(1);
        }
    }

    /// What has been copied.
    pub fn stats(&self) -> (r: CopyStats)
        ensures
            r == self@.stats,
    {
        self.stats
    }

    /// Whether the progress is shown.
    pub fn shows_progress(&self) -> (r: bool)
        ensures
            r == self@.show_progress,
    {
        self.show_progress
    }

    /// The file system that the rings belong to.
    pub fn mount_point(&self) -> (r: &str)
        ensures
            r@ == self@.mount_point,
    {
        self.mount_point.as_str()
    }

    /// The line that is shown for a message, where the user wants to know the
    /// details and there is a place to show them.
    pub fn log_debug(&self, message: &str) -> (r: Option<String>)
        ensures
            r is Some <==> self@.debug_line(message@) is Some,
            r matches Some(line) ==> line@ == self@.debug_line(message@)->Some_0,
    {
        if self.debug && self.show_progress {
            let mut line = "[DEBUG] ".to_owned();
            line.append(message);
            Some(line)
        } else {
            None
        }
    }

    /// The words for an error. Those who want to know the details also learn
    /// where it happened.
    pub fn format_error(&self, prefix: &str, context: &str, backtrace: &str) -> (r: String)
        ensures
            r@ == self@.error_text(prefix@, context@, backtrace@),
    {
        let mut text = prefix.to_owned();
        if self.debug {
            text.append("\n[DEBUG] ");
            text.append(context);
            text.append("\nBacktrace:\n");
            text.append(backtrace);
        } else {
            text.append(": ");
            text.append(context);
        }
        text
    }
}

/// The buffer never exceeds what the user allows, and holds a block where the
/// user allows that much.
pub proof fn law_buffer_is_within_bounds(copier: CopierView, file_size: int)
    ensures
        copier.iov_size(file_size) <= copier.max_iov_size,
        copier.block_size <= copier.max_iov_size ==> copier.block_size <= copier.iov_size(
            file_size,
        ),
        copier.block_size <= file_size <= copier.max_iov_size ==> copier.iov_size(file_size)
            == file_size,
{
}

/// The buffer is as large as the file, or as a block where the file is smaller, unless
/// the user does not allow that much; then it is what the user allows.
pub proof fn law_buffer_suits_the_file(copier: CopierView, file_size: int)
    ensures
        ({
            let size = copier.iov_size(file_size);
            &&& file_size <= copier.max_iov_size && copier.block_size <= copier.max_iov_size ==> {
                &&& size >= file_size
                &&& size >= copier.block_size
                &&& size == file_size || size == copier.block_size
            }
            &&& file_size > copier.max_iov_size || copier.block_size > copier.max_iov_size ==> size
                == copier.max_iov_size
        }),
{
}

} // verus!

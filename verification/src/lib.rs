//! The verified core of a file copier for a ring-based file system.

pub mod copier;
pub mod copy_laws;
pub mod depth;
pub mod depth_laws;
pub mod path;
pub mod path_laws;
pub mod path_set;
pub mod pipeline;
pub mod pipeline_laws;
pub mod pipeline_order_laws;
pub mod pipeline_ring_laws;
pub mod plan_laws;
pub mod progress;
pub mod progress_laws;
pub mod ring;
pub mod ring_laws;
pub mod ring_traffic;
pub mod session;
pub mod session_laws;
pub mod shm_laws;
pub mod shm_manager;
pub mod step_laws;
pub mod task;
pub mod task_laws;
pub mod text;
pub mod text_laws;
pub mod utils;
pub mod verify_laws;
pub mod worker_context;
pub mod worker_laws;
pub mod worker_pipeline;
pub mod worker_ring_laws;

pub mod controller;
pub mod layout;
pub mod shm_region;
pub mod spsc_queue;

pub use layout::{CscpShmHeader, DefaultShmLayout, ShmLayout, SHM_ABI_VERSION, SHM_MAGIC};
pub use shm_region::shm_object_name;
pub use spsc_queue::{CscpFrame, SpscQueue};

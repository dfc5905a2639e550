//! Device-side building blocks: packet buffers, the interface contract and
//! the virtio transport with its network driver.

pub mod buffer;
pub mod netif;
pub mod serial;
pub mod virtio;

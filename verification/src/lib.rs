//! A typed in-process channel fabric: strongly shaped values — including
//! embedded channel endpoints and shared-memory regions — travel between
//! paired endpoints as byte payloads with a handle side channel, the way a
//! native local-IPC transport carries them between processes.

pub mod codec;
pub mod ipc;
pub mod oneshot;
pub mod receiver_set;
pub mod router;
pub mod shmem;
pub mod transport;
pub mod value;
pub mod wait;

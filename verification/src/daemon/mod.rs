pub mod ringbuf;
pub mod session;

pub mod clock;
pub mod clients;
pub mod registry;
pub mod server;
pub mod procfs;
pub mod grace;

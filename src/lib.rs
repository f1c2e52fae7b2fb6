//! A small HTTP dispatch engine: a per-method route table, an ordered
//! middleware chain and the cursor that walks it for one request.

pub mod access_log;
pub mod chain;
pub mod error;
pub mod matcher;
pub mod method;
pub mod params;
pub mod server;

pub use access_log::AccessLog;
pub use chain::{ChainEvent, Next, Step, Terminal, NOT_FOUND_STATUS};
pub use error::Error;
pub use method::normalize_method;
pub use params::Params;
pub use server::Server;

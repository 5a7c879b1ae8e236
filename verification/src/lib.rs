//! Splitting one physical monitor into several virtual monitors: the shared
//! protocol, synthetic EDID generation, region validation and the driver's
//! bookkeeping of virtual monitors.

pub mod coverage;
pub mod edid;
pub mod hotkeys;
pub mod monitor_manager;
pub mod pipe_server;
pub mod pipe_client;
pub mod protocol;
pub mod ratio;
pub mod replies;
pub mod text;

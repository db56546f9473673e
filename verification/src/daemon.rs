//! The workspace daemon: its persistent state, the requests it answers, the
//! layout it initializes, and the commands that drive it.

pub mod initialize;
pub mod reload;
pub mod start;
pub mod state;
pub mod status;
pub mod stop;


pub use reload::ReloadDaemon;
pub use start::StartDaemon;
pub use status::StatusDaemon;
pub use stop::StopDaemon;

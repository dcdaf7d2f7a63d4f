//! Per-process network traffic observation: the models, the packet and
//! connection bookkeeping, the HTTP proxy's decisions and the traffic view's
//! filtering, all with verified contracts.

pub mod address;
pub mod authority;
pub mod capture;
pub mod correlation;
pub mod laws;
pub mod model;
pub mod proxy;
pub mod storage;
pub mod system;
pub mod text;
pub mod ui;

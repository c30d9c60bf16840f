//! Live per-region model of transit vehicles that report their passage of
//! trackside points, with travel-time inference between adjacent points and
//! the filtering decisions of a broadcast pool of live subscribers.

pub mod api;
pub mod filter;
pub mod graph;
pub mod laws;
pub mod network;
pub mod pool;
pub mod report;
pub mod state;

pub use api::{Error, NetworkRequest, RequestVehicleInformation};
pub use filter::Filter;
pub use graph::{Graph, Path};
pub use network::{Network, RegionView};
pub use pool::{ConnectionPool, Outcome, Subscriber, UserState};
pub use report::{RequestStatus, Telegram, Tram, UpdateError};
pub use state::State;

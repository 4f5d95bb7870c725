//! Presence detection on a local network segment: a classifier for captured
//! link-layer frames, a tracker of which known devices are online, and the
//! cooldowns and quiet hours that shape the notifications sent when they come
//! and go.

pub mod config;
pub mod error;
pub mod hysteresis;
pub mod mac_address;
pub mod metadata;
pub mod network;
pub mod presence;
pub mod telegram;
pub mod time;

pub use config::{build_rules, Config, Interface, InterfaceInfo, Period, User};
pub use error::Error;
pub use hysteresis::Hysteresis;
pub use mac_address::MacAddress;
pub use metadata::Metadata;
pub use network::{Event, IpAddress, Ipv4Address, NetworkAddresses};
pub use presence::{HouseRat, Status, Tick, Tracking};
pub use telegram::Message;
pub use time::{Duration, TimeOfDay, Timestamp};

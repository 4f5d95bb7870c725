use crate::mac_address::MacAddress;
use vstd::prelude::*;

verus! {

/// The failures that the library reports to its callers.
#[derive(Debug, PartialEq, Eq)]
pub enum Error {
    /// A hardware address that is not six colon-separated hexadecimal octets.
    InvalidMacAddress { value: String },
    /// A subscriber that names no person of the configuration.
    UnknownUser { user: String },
    /// A subscriber with no chat to send to.
    MissingChatId { user: String },
    /// Two persons, or one person twice, claim the same device.
    DuplicateDevice { device: MacAddress, user: String, orig_user: String },
    /// A person with a subscriber but no devices.
    NoDevices { user: String },
    /// A person with devices but no subscriber.
    NoSubscriber { user: String },
    /// A network interface that the system does not have.
    UnknownInterface { interface: String },
    /// A network interface without a hardware or an IPv4 address.
    BadInterface { interface: String },
    /// A cooldown too long to be counted in milliseconds.
    InvalidDuration { millis: u128 },
}

} // verus!

//! Receiver-wide configuration.

use vstd::prelude::*;

use crate::number;
use crate::number::to_hex;

verus! {

/// Receiver-wide configuration. Shared by the RTSP server and the mDNS
/// advertisement: the MAC address must be the same in both places, as clients
/// verify the `Apple-Response` signature against the MAC embedded in the
/// service name.
#[derive(Debug, Clone)]
pub struct Config {
    /// The receiver name senders see in the AirPlay picker.
    pub name: String,
    /// TCP port of the RTSP control server.
    pub port: u16,
    /// The MAC address used in the service name and the `Apple-Challenge`
    /// signature.
    pub mac: [u8; 6],
    /// If there is one, the receiver requires this password to stream. It never
    /// appears in the advertisement or any log.
    pub password: Option<String>,
}

impl Config {
    /// MAC as 12 uppercase hex digits, e.g. `AABBCCDDEEFF`, as used in the
    /// `_raop._tcp` service name.
    pub fn mac_hex(&self) -> (text: String)
        ensures
            text@ == number::hex(self.mac@, true),
            text@.len() == 12,
    {
        proof {
            number::lemma_hex_len(self.mac@, true);
        }
        to_hex(self.mac.as_slice(), true)
    }

    /// The mDNS service name: `<MAC>@<FriendlyName>`.
    pub fn service_name(&self) -> (text: String)
        ensures
            text@ == number::hex(self.mac@, true) + "@"@ + self.name@,
    {
        let mut text = self.mac_hex();
        text.append("@");
        text.append(self.name.as_str());
        text
    }
}

} // verus!

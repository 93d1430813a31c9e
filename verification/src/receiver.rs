//! The embedding facade: configure a [`Receiver`].

use vstd::prelude::*;

use crate::avahi;
use crate::avahi::Service;
use crate::config::Config;
use crate::text;

verus! {

/// The RTSP port where none is given.
pub const DEFAULT_PORT: u16 = 5000;

/// The locally administered MAC address where none is given and none is found.
pub open spec fn fallback_mac() -> [u8; 6] {
    [0x02, 0x4f, 0x41, 0x50, 0x31, 0x00]
}

/// Configures a [`Receiver`]. Create one with [`Receiver::builder`].
///
/// Every setting has a default.
pub struct ReceiverBuilder {
    name: String,
    port: u16,
    mac: Option<[u8; 6]>,
    advertise: bool,
    password: Option<String>,
}

/// The settings of a builder, as a mathematical value.
pub struct Settings {
    pub name: Seq<char>,
    pub port: u16,
    pub mac: Option<[u8; 6]>,
    pub advertise: bool,
    pub password: Option<Seq<char>>,
}

impl View for ReceiverBuilder {
    type V = Settings;

    closed spec fn view(&self) -> Settings {
        Settings {
            name: self.name@,
            port: self.port,
            mac: self.mac,
            advertise: self.advertise,
            password: text::optional_text(self.password),
        }
    }
}

impl ReceiverBuilder {
    /// The receiver name senders see in the AirPlay picker.
    pub fn name(self, name: &str) -> (builder: ReceiverBuilder)
        ensures
            builder@ == (Settings { name: name@, ..self@ }),
    {
        let mut builder = self;
        builder.name = name.to_owned();
        builder
    }

    /// The RTSP control port to listen on (also advertised).
    pub fn port(self, port: u16) -> (builder: ReceiverBuilder)
        ensures
            builder@ == (Settings { port, ..self@ }),
    {
        let mut builder = self;
        builder.port = port;
        builder
    }

    /// The MAC used in the `_raop._tcp` service name and the `Apple-Challenge`
    /// signature (clients verify against it, so both must match).
    pub fn mac(self, mac: [u8; 6]) -> (builder: ReceiverBuilder)
        ensures
            builder@ == (Settings { mac: Some(mac), ..self@ }),
    {
        let mut builder = self;
        builder.mac = Some(mac);
        builder
    }

    /// Whether the receiver is to be registered with the system's mDNS daemon.
    /// Pass `false` when the host owns its mDNS registration and use
    /// [`Receiver::txt_records`] to advertise.
    pub fn advertise(self, advertise: bool) -> (builder: ReceiverBuilder)
        ensures
            builder@ == (Settings { advertise, ..self@ }),
    {
        let mut builder = self;
        builder.advertise = advertise;
        builder
    }

    /// Require a password before the receiver will stream to a sender.
    pub fn password(self, password: &str) -> (builder: ReceiverBuilder)
        ensures
            builder@ == (Settings { password: Some(password@), ..self@ }),
    {
        let mut builder = self;
        builder.password = Some(password.to_owned());
        builder
    }

    /// Resolve the MAC (the one given, or the one that the host discovered, or
    /// a fixed fallback) and produce a [`Receiver`].
    pub fn build(self, discovered: Option<[u8; 6]>) -> (receiver: Receiver)
        ensures
            receiver@.config.name@ == self@.name,
            receiver@.config.port == self@.port,
            receiver@.config.mac == (match self@.mac {
                Some(mac) => mac,
                None => match discovered {
                    Some(mac) => mac,
                    None => fallback_mac(),
                },
            }),
            text::optional_text(receiver@.config.password) == self@.password,
            receiver@.advertise == self@.advertise,
    {
        let mac: [u8; 6] = match self.mac {
            Some(mac) => mac,
            None => match discovered {
                Some(mac) => mac,
                None => [0x02, 0x4f, 0x41, 0x50, 0x31, 0x00],
            },
        };
        Receiver {
            config: Config { name: self.name, port: self.port, mac, password: self.password },
            advertise: self.advertise,
        }
    }
}

/// An AirPlay 1 (RAOP) audio receiver: senders discover it, handshake with it,
/// and stream ALAC to it. One sender, one stream, one output.
pub struct Receiver {
    config: Config,
    advertise: bool,
}

/// A receiver, as a mathematical value.
pub struct ReceiverContent {
    pub config: Config,
    pub advertise: bool,
}

impl View for Receiver {
    type V = ReceiverContent;

    closed spec fn view(&self) -> ReceiverContent {
        ReceiverContent { config: self.config, advertise: self.advertise }
    }
}

impl Receiver {
    /// Start configuring a receiver; everything has a default: the name
    /// `OpenAirPlay`, port 5000, a discovered MAC, advertised, no password.
    pub fn builder() -> (builder: ReceiverBuilder)
        ensures
            builder@ == (Settings {
                name: "OpenAirPlay"@,
                port: DEFAULT_PORT,
                mac: None,
                advertise: true,
                password: None,
            }),
    {
        ReceiverBuilder {
            name: "OpenAirPlay".to_owned(),
            port: DEFAULT_PORT,
            mac: None,
            advertise: true,
            password: None,
        }
    }

    /// The resolved configuration.
    pub fn config(&self) -> (config: &Config)
        ensures
            *config == self@.config,
    {
        &self.config
    }

    /// Whether to register with the system's mDNS daemon.
    pub fn advertises(&self) -> (advertise: bool)
        ensures
            advertise == self@.advertise,
    {
        self.advertise
    }

    /// The `_raop._tcp` TXT records, for hosts that own their mDNS registration.
    pub fn txt_records(&self) -> (records: Vec<String>)
        ensures
            text::texts(records@) == avahi::records(self@.config.password is Some),
    {
        match &self.config.password {
            Some(password) => avahi::txt_records(Some(password.as_str())),
            None => avahi::txt_records(None),
        }
    }

    /// What to register with the mDNS daemon, if anything.
    pub fn service(&self) -> (service: Option<Service>)
        ensures
            service is Some <==> self@.advertise,
            service matches Some(s) ==> {
                &&& s.interface == -1
                &&& s.protocol == -1
                &&& s.flags == 0
                &&& s.kind@ == "_raop._tcp"@
                &&& s.domain@.len() == 0
                &&& s.host@.len() == 0
                &&& s.name@ == crate::number::hex(self@.config.mac@, true) + "@"@
                    + self@.config.name@
                &&& s.port == self@.config.port
                &&& avahi::byte_contents(s.txt@) == avahi::encoded(
                    avahi::records(self@.config.password is Some),
                )
            },
    {
        if self.advertise {
            Some(Service::of(&self.config))
        } else {
            None
        }
    }
}

/// A receiver without settings of its own listens where AirPlay receivers do, and
/// goes by a made-up, locally administered address where it has none.
pub proof fn law_the_defaults()
    ensures
        DEFAULT_PORT == 5000,
        fallback_mac()@ == seq![0x02u8, 0x4f, 0x41, 0x50, 0x31, 0x00],
{
    assert(fallback_mac()@ =~= seq![0x02u8, 0x4f, 0x41, 0x50, 0x31, 0x00]);
}

} // verus!

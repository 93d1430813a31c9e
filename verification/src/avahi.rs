//! What the receiver advertises as `_raop._tcp`.

use vstd::prelude::*;

use crate::config::Config;
use crate::number;
use crate::text;

verus! {

/// The `pw` record: whether a password is required to stream.
pub open spec fn pw_record(protected: bool) -> Seq<char> {
    if protected {
        "pw=true"@
    } else {
        "pw=false"@
    }
}

/// The TXT records, in order.
pub open spec fn records(protected: bool) -> Seq<Seq<char>> {
    seq![
        "txtvers=1"@,
        "ch=2"@,
        "cn=0,1"@,
        "ek=1"@,
        "et=0,1"@,
        "sv=false"@,
        "da=true"@,
        "sr=44100"@,
        "ss=16"@,
        pw_record(protected),
        "vn=65537"@,
        "tp=UDP"@,
        "md=0,1,2"@,
        "am=OpenAirPlay"@,
        "vs=105.1"@,
        "sf=0x4"@,
    ]
}

/// TXT records for classic (AirPlay 1) mode: ALAC or PCM (`cn`), optional RSA
/// encryption (`et`), 44100/16/2 audio. `pw` advertises whether the receiver
/// requires a password; the password itself is never part of the
/// advertisement.
pub fn txt_records(password: Option<&str>) -> (out: Vec<String>)
    ensures
        text::texts(out@) == records(password is Some),
{
    let pw = if password.is_some() {
        "pw=true"
    } else {
        "pw=false"
    };
    let mut out: Vec<String> = Vec::new();
    out.push("txtvers=1".to_owned());
    out.push("ch=2".to_owned());
    out.push("cn=0,1".to_owned());
    out.push("ek=1".to_owned());
    out.push("et=0,1".to_owned());
    out.push("sv=false".to_owned());
    out.push("da=true".to_owned());
    out.push("sr=44100".to_owned());
    out.push("ss=16".to_owned());
    out.push(pw.to_owned());
    out.push("vn=65537".to_owned());
    out.push("tp=UDP".to_owned());
    out.push("md=0,1,2".to_owned());
    out.push("am=OpenAirPlay".to_owned());
    out.push("vs=105.1".to_owned());
    out.push("sf=0x4".to_owned());
    assert(text::texts(out@) =~= records(password is Some));
    out
}

/// What to register with the mDNS daemon.
#[derive(Debug)]
pub struct Service {
    /// The network interface; -1 is every one.
    pub interface: i32,
    /// The IP protocol; -1 is every one.
    pub protocol: i32,
    pub flags: u32,
    pub name: String,
    pub kind: String,
    /// Empty: the daemon's default.
    pub domain: String,
    /// Empty: the daemon's default.
    pub host: String,
    pub port: u16,
    /// The TXT records, as bytes.
    pub txt: Vec<Vec<u8>>,
}

/// The bytes of some texts.
pub open spec fn encoded(texts: Seq<Seq<char>>) -> Seq<Seq<u8>> {
    texts.map_values(|t: Seq<char>| vstd::utf8::encode_utf8(t))
}

/// The contents of some byte strings.
pub open spec fn byte_contents(strings: Seq<Vec<u8>>) -> Seq<Seq<u8>> {
    strings.map_values(|s: Vec<u8>| s@)
}

impl Service {
    /// The registration of a receiver: `<MAC>@<Name>` as `_raop._tcp` on its
    /// port, on every interface and protocol.
    pub fn of(config: &Config) -> (service: Service)
        ensures
            service.interface == -1,
            service.protocol == -1,
            service.flags == 0,
            service.name@ == number::hex(config.mac@, true) + "@"@ + config.name@,
            service.kind@ == "_raop._tcp"@,
            service.domain@ == Seq::<char>::empty(),
            service.host@ == Seq::<char>::empty(),
            service.port == config.port,
            byte_contents(service.txt@) == encoded(records(config.password is Some)),
    {
        let password = match &config.password {
            Some(password) => Some(password.as_str()),
            None => None,
        };
        let all = txt_records(password);
        let ghost wanted = encoded(text::texts(all@));
        let mut txt: Vec<Vec<u8>> = Vec::new();
        let mut i: usize = 0;
        while i < all.len()
            invariant
                i <= all@.len(),
                wanted == encoded(text::texts(all@)),
                byte_contents(txt@) == wanted.take(i as int),
            decreases all@.len() - i,
        {
            let ghost was = txt@;
            txt.push(vstd::slice::slice_to_vec(all[i].as_str().as_bytes()));
            assert(byte_contents(txt@) =~= byte_contents(was).push(wanted[i as int]));
            assert(wanted.take(i + 1) =~= wanted.take(i as int).push(wanted[i as int]));
            i += 1;
        }
        assert(wanted.take(i as int) =~= wanted);
        Service {
            interface: -1,
            protocol: -1,
            flags: 0,
            name: config.service_name(),
            kind: "_raop._tcp".to_owned(),
            domain: String::new(),
            host: String::new(),
            port: config.port,
            txt,
        }
    }
}

/// What is advertised: version, channels, codecs, encryption, sample format,
/// transport, metadata and model, and whether a password is needed; that alone
/// depends on whether one is set.
pub proof fn law_only_the_password_record_varies()
    ensures
        records(false) == seq![
            "txtvers=1"@,
            "ch=2"@,
            "cn=0,1"@,
            "ek=1"@,
            "et=0,1"@,
            "sv=false"@,
            "da=true"@,
            "sr=44100"@,
            "ss=16"@,
            "pw=false"@,
            "vn=65537"@,
            "tp=UDP"@,
            "md=0,1,2"@,
            "am=OpenAirPlay"@,
            "vs=105.1"@,
            "sf=0x4"@,
        ],
        records(true) == records(false).update(9, "pw=true"@),
{
    assert(records(true) =~= records(false).update(9, "pw=true"@));
}

} // verus!

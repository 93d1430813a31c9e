//! The receiver's command line, and what it logs of a session.

use vstd::prelude::*;

use crate::events::{Event, EventContent};
use crate::mac;
use crate::mac::parse_mac;
use crate::number;
use crate::number::{parse_unsigned, push_decimal, push_decimal_wide};
use crate::text;
use crate::text::{chars_of, same};
use crate::time::Duration;

verus! {

/// A way to show images in a terminal.
#[derive(Debug, Clone, Copy, PartialEq, Eq)]
pub enum Protocol {
    Kitty,
    Iterm2,
    Off,
}

/// The protocol of that name.
pub open spec fn protocol_named(name: Seq<char>) -> Option<Protocol> {
    if name == "kitty"@ {
        Some(Protocol::Kitty)
    } else if name == "iterm2"@ {
        Some(Protocol::Iterm2)
    } else if name == "none"@ {
        Some(Protocol::Off)
    } else {
        None
    }
}

impl Protocol {
    /// The protocol of that name.
    pub fn parse(name: &str) -> (protocol: Option<Protocol>)
        ensures
            protocol == protocol_named(name@),
    {
        if same(name, "kitty") {
            Some(Protocol::Kitty)
        } else if same(name, "iterm2") {
            Some(Protocol::Iterm2)
        } else if same(name, "none") {
            Some(Protocol::Off)
        } else {
            None
        }
    }
}

/// What the command line asks for.
#[derive(Debug)]
pub struct Args {
    /// The receiver's name, where one is given.
    pub name: Option<String>,
    /// The RTSP port, where one is given.
    pub port: Option<u16>,
    /// The MAC address, where one is given.
    pub mac: Option<[u8; 6]>,
    /// Whether to advertise the service.
    pub avahi: bool,
    /// The password to require, where one is given.
    pub password: Option<String>,
    /// The ALSA device, or `None` for no audio.
    pub alsa_device: Option<String>,
    /// Full-screen now-playing display instead of log output.
    pub tui: bool,
    /// Where log output goes.
    pub log_file: Option<String>,
    /// The address to serve the now-playing dashboard on, where one is given.
    pub dashboard_listen: Option<String>,
    /// Forced terminal-graphics protocol, or `None` to detect one.
    pub images: Option<Protocol>,
}

/// The arguments, as a mathematical value.
pub struct ArgsContent {
    pub name: Option<Seq<char>>,
    pub port: Option<u16>,
    pub mac: Option<Seq<u8>>,
    pub avahi: bool,
    pub password: Option<Seq<char>>,
    pub alsa_device: Option<Seq<char>>,
    pub tui: bool,
    pub log_file: Option<Seq<char>>,
    pub dashboard_listen: Option<Seq<char>>,
    pub images: Option<Protocol>,
}

impl View for Args {
    type V = ArgsContent;

    open spec fn view(&self) -> ArgsContent {
        ArgsContent {
            name: text::optional_text(self.name),
            port: self.port,
            mac: match self.mac {
                Some(mac) => Some(mac@),
                None => None,
            },
            avahi: self.avahi,
            password: text::optional_text(self.password),
            alsa_device: text::optional_text(self.alsa_device),
            tui: self.tui,
            log_file: text::optional_text(self.log_file),
            dashboard_listen: text::optional_text(self.dashboard_listen),
            images: self.images,
        }
    }
}

/// Why the command line was refused.
#[derive(Debug, PartialEq, Eq)]
pub enum UsageError {
    /// Help was asked for, or an argument lacks its value or has a bad one.
    Usage,
    /// An argument that does not exist.
    Unknown(String),
}

/// Why the command line was refused, as a mathematical value.
pub enum UsageContent {
    Usage,
    Unknown(Seq<char>),
}

impl View for UsageError {
    type V = UsageContent;

    open spec fn view(&self) -> UsageContent {
        match *self {
            UsageError::Usage => UsageContent::Usage,
            UsageError::Unknown(arg) => UsageContent::Unknown(arg@),
        }
    }
}

/// What there is without any argument.
pub open spec fn default_args() -> ArgsContent {
    ArgsContent {
        name: None,
        port: None,
        mac: None,
        avahi: true,
        password: None,
        alsa_device: Some("default"@),
        tui: false,
        log_file: None,
        dashboard_listen: None,
        images: None,
    }
}

/// The arguments with one more that takes no value, if it is one.
pub open spec fn with_flag(args: ArgsContent, flag: Seq<char>) -> Option<ArgsContent> {
    if flag == "--no-audio"@ {
        Some(ArgsContent { alsa_device: None, ..args })
    } else if flag == "--tui"@ {
        Some(ArgsContent { tui: true, ..args })
    } else if flag == "--no-avahi"@ {
        Some(ArgsContent { avahi: false, ..args })
    } else {
        None
    }
}

/// Whether an argument takes a value.
pub open spec fn takes_value(arg: Seq<char>) -> bool {
    arg == "--name"@ || arg == "--port"@ || arg == "--mac"@ || arg == "--password"@ || arg
        == "--pincode"@ || arg == "--alsa-device"@ || arg == "--log-file"@ || arg
        == "--dashboard-listen"@ || arg == "--tui-images"@
}

/// The arguments with one more that takes this value, if the value is good.
pub open spec fn with_value(args: ArgsContent, arg: Seq<char>, value: Seq<char>) -> Option<
    ArgsContent,
> {
    if arg == "--name"@ {
        Some(ArgsContent { name: Some(value), ..args })
    } else if arg == "--port"@ {
        match number::parsed_unsigned(value, 10, u16::MAX as int) {
            Some(port) => Some(ArgsContent { port: Some(port as u16), ..args }),
            None => None,
        }
    } else if arg == "--mac"@ {
        match mac::mac_of(value) {
            Some(mac) => Some(ArgsContent { mac: Some(mac), ..args }),
            None => None,
        }
    } else if arg == "--password"@ || arg == "--pincode"@ {
        Some(ArgsContent { password: Some(value), ..args })
    } else if arg == "--alsa-device"@ {
        Some(ArgsContent { alsa_device: Some(value), ..args })
    } else if arg == "--log-file"@ {
        Some(ArgsContent { log_file: Some(value), ..args })
    } else if arg == "--dashboard-listen"@ {
        Some(ArgsContent { dashboard_listen: Some(value), ..args })
    } else if value == "auto"@ {
        Some(ArgsContent { images: None, ..args })
    } else {
        match protocol_named(value) {
            Some(protocol) => Some(ArgsContent { images: Some(protocol), ..args }),
            None => None,
        }
    }
}

/// What a command line asks for, given what came before it: each argument in
/// turn, with its value where it takes one; a later one overrides an earlier.
pub open spec fn parsed_args(words: Seq<Seq<char>>, args: ArgsContent) -> Result<
    ArgsContent,
    UsageContent,
>
    decreases words.len(),
{
    if words.len() == 0 {
        Ok(args)
    } else if takes_value(words[0]) {
        if words.len() < 2 {
            Err(UsageContent::Usage)
        } else {
            match with_value(args, words[0], words[1]) {
                Some(args) => parsed_args(words.skip(2), args),
                None => Err(UsageContent::Usage),
            }
        }
    } else {
        match with_flag(args, words[0]) {
            Some(args) => parsed_args(words.skip(1), args),
            None => if words[0] == "-h"@ || words[0] == "--help"@ {
                Err(UsageContent::Usage)
            } else {
                Err(UsageContent::Unknown(words[0]))
            },
        }
    }
}

fn set_value(args: &mut Args, arg: &str, value: &str) -> (ok: bool)
    requires
        takes_value(arg@),
    ensures
        ok == (with_value(old(args)@, arg@, value@) is Some),
        ok ==> final(args)@ == with_value(old(args)@, arg@, value@)->0,
{
    if same(arg, "--name") {
        args.name = Some(value.to_owned());
        true
    } else if same(arg, "--port") {
        match parse_unsigned(chars_of(value).as_slice(), 10, u16::MAX as u64) {
            Some(port) => {
                args.port = Some(port as u16);
                true
            },
            None => false,
        }
    } else if same(arg, "--mac") {
        match parse_mac(value) {
            Some(mac) => {
                args.mac = Some(mac);
                true
            },
            None => false,
        }
    } else if same(arg, "--password") || same(arg, "--pincode") {
        args.password = Some(value.to_owned());
        true
    } else if same(arg, "--alsa-device") {
        args.alsa_device = Some(value.to_owned());
        true
    } else if same(arg, "--log-file") {
        args.log_file = Some(value.to_owned());
        true
    } else if same(arg, "--dashboard-listen") {
        args.dashboard_listen = Some(value.to_owned());
        true
    } else if same(value, "auto") {
        args.images = None;
        true
    } else {
        match Protocol::parse(value) {
            Some(protocol) => {
                args.images = Some(protocol);
                true
            },
            None => false,
        }
    }
}

fn is_option(arg: &str) -> (takes: bool)
    ensures
        takes == takes_value(arg@),
{
    same(arg, "--name") || same(arg, "--port") || same(arg, "--mac") || same(arg, "--password")
        || same(arg, "--pincode") || same(arg, "--alsa-device") || same(arg, "--log-file") || same(
        arg,
        "--dashboard-listen",
    ) || same(arg, "--tui-images")
}

/// Parse the command line (without the program's name).
pub fn parse_args(words: &[String]) -> (args: Result<Args, UsageError>)
    ensures
        match args {
            Ok(a) => parsed_args(text::texts(words@), default_args()) == Ok::<_, UsageContent>(a@),
            Err(e) => parsed_args(text::texts(words@), default_args()) == Err::<ArgsContent, _>(e@),
        },
{
    let mut args = Args {
        name: None,
        port: None,
        mac: None,
        avahi: true,
        password: None,
        alsa_device: Some("default".to_owned()),
        tui: false,
        log_file: None,
        dashboard_listen: None,
        images: None,
    };
    let ghost all = text::texts(words@);
    let mut i: usize = 0;
    assert(all.skip(0) =~= all);
    while i < words.len()
        invariant
            i <= words@.len(),
            all == text::texts(words@),
            parsed_args(all, default_args()) == parsed_args(all.skip(i as int), args@),
        decreases words@.len() - i,
    {
        let word = words[i].as_str();
        proof {
            assert(all.skip(i as int)[0] == word@);
            assert(all.skip(i as int).skip(1) =~= all.skip(i + 1));
            if i + 1 < all.len() {
                assert(all.skip(i as int)[1] == words@[i + 1]@);
                assert(all.skip(i as int).skip(2) =~= all.skip(i + 2));
            }
        }
        if is_option(word) {
            if words.len() - i < 2 {
                return Err(UsageError::Usage);
            }
            if !set_value(&mut args, word, words[i + 1].as_str()) {
                return Err(UsageError::Usage);
            }
            i += 2;
        } else {
            if same(word, "--no-audio") {
                args.alsa_device = None;
            } else if same(word, "--tui") {
                args.tui = true;
            } else if same(word, "--no-avahi") {
                args.avahi = false;
            } else if same(word, "-h") || same(word, "--help") {
                return Err(UsageError::Usage);
            } else {
                return Err(UsageError::Unknown(words[i].clone()));
            }
            i += 1;
        }
    }
    Ok(args)
}

/// A text, or a question mark where there is none.
pub open spec fn or_unknown(s: Option<Seq<char>>) -> Seq<char> {
    match s {
        Some(s) => s,
        None => "?"@,
    }
}

/// The seconds of a span, to the nearest (to the even one of two).
pub open spec fn rounded_secs(nanos: int) -> nat {
    let whole = nanos / 1_000_000_000;
    let rest = nanos % 1_000_000_000;
    if rest > 500_000_000 || (rest == 500_000_000 && whole % 2 == 1) {
        (whole + 1) as nat
    } else {
        whole as nat
    }
}

/// What the log says of an event; the volume is logged where the gain is
/// applied. Every such line comes of music that is playing, so all of them
/// are debug lines.
pub open spec fn logged(event: EventContent) -> Option<Seq<char>> {
    match event {
        EventContent::SessionStarted { rate, channels, peer } => Some(
            "session started ("@ + number::decimal(rate as nat) + " Hz, "@ + number::decimal(
                channels as nat,
            ) + "ch) from "@ + peer,
        ),
        EventContent::Progress { elapsed, duration } => Some(
            "progress "@ + number::decimal(rounded_secs(elapsed)) + "s / "@ + number::decimal(
                rounded_secs(duration),
            ) + "s"@,
        ),
        EventContent::Metadata { title, artist, album } => Some(
            "now playing: "@ + or_unknown(artist) + " \u{2014} "@ + or_unknown(title) + " ("@
                + or_unknown(album) + ")"@,
        ),
        EventContent::Artwork { content_type, data } => Some(
            if data.len() == 0 {
                "artwork cleared ("@ + content_type + ")"@
            } else {
                "artwork: "@ + content_type + ", "@ + number::decimal(data.len()) + " bytes"@
            },
        ),
        EventContent::SessionEnded => Some("session ended"@),
        EventContent::Flushed => Some("flushed"@),
        EventContent::Volume { .. } => None,
    }
}

fn push_or_unknown(out: &mut String, s: &Option<String>)
    ensures
        final(out)@ == old(out)@ + or_unknown(text::optional_text(*s)),
{
    match s {
        Some(s) => out.append(s.as_str()),
        None => out.append("?"),
    }
}

fn push_secs(out: &mut String, d: &Duration)
    ensures
        final(out)@ == old(out)@ + number::decimal(rounded_secs(d@)),
{
    let nanos: u128 = d.as_nanos();
    let whole: u128 = nanos / 1_000_000_000;
    let rest: u128 = nanos % 1_000_000_000;
    if rest > 500_000_000 || (rest == 500_000_000 && whole % 2 == 1) {
        push_decimal_wide(out, whole + 1);
    } else {
        push_decimal_wide(out, whole);
    }
}

/// How much a line of the log matters.
#[derive(Debug, Clone, Copy, PartialEq, Eq, Structural)]
pub enum Level {
    Error,
    Warn,
    Info,
    Debug,
    Trace,
}

/// A line of the log.
#[derive(Debug, PartialEq, Eq)]
pub struct LogLine {
    pub level: Level,
    pub text: String,
}

/// One line for an event. What happens in a session is of interest for
/// debugging only.
pub fn log_event(event: &Event) -> (line: Option<LogLine>)
    ensures
        line is Some <==> logged(event@) is Some,
        line matches Some(l) ==> l.level == Level::Debug && l.text@ == logged(event@)->0,
{
    match event_text(event) {
        Some(text) => Some(LogLine { level: Level::Debug, text }),
        None => None,
    }
}

fn event_text(event: &Event) -> (line: Option<String>)
    ensures
        text::optional_text(line) == logged(event@),
{
    let mut out = String::new();
    match event {
        Event::SessionStarted { rate, channels, peer } => {
            out.append("session started (");
            push_decimal(&mut out, *rate as u64);
            out.append(" Hz, ");
            push_decimal(&mut out, *channels as u64);
            out.append("ch) from ");
            out.append(peer.as_str());
            assert(out@ =~= logged(event@)->0);
            Some(out)
        },
        Event::Progress { elapsed, duration } => {
            out.append("progress ");
            push_secs(&mut out, elapsed);
            out.append("s / ");
            push_secs(&mut out, duration);
            out.append("s");
            assert(out@ =~= logged(event@)->0);
            Some(out)
        },
        Event::Metadata { title, artist, album } => {
            out.append("now playing: ");
            push_or_unknown(&mut out, artist);
            out.append(" \u{2014} ");
            push_or_unknown(&mut out, title);
            out.append(" (");
            push_or_unknown(&mut out, album);
            out.append(")");
            assert(out@ =~= logged(event@)->0);
            Some(out)
        },
        Event::Artwork { content_type, data } => {
            if data.len() == 0 {
                out.append("artwork cleared (");
                out.append(content_type.as_str());
                out.append(")");
            } else {
                out.append("artwork: ");
                out.append(content_type.as_str());
                out.append(", ");
                push_decimal(&mut out, data.len() as u64);
                out.append(" bytes");
            }
            assert(out@ =~= logged(event@)->0);
            Some(out)
        },
        Event::SessionEnded => Some("session ended".to_owned()),
        Event::Flushed => Some("flushed".to_owned()),
        Event::Volume { .. } => None,
    }
}

/// Where the log goes.
#[derive(Debug, PartialEq, Eq)]
pub enum LogTarget {
    /// To this file.
    File(String),
    /// Nowhere.
    Nowhere,
    /// To standard error.
    Stderr,
}

/// Point the log at the right place: a file that was asked for wins; otherwise
/// standard error, except under the display, which owns the screen.
pub fn log_target(args: &Args) -> (target: LogTarget)
    ensures
        match target {
            LogTarget::File(path) => args@.log_file == Some(path@),
            LogTarget::Nowhere => args@.log_file is None && args@.tui,
            LogTarget::Stderr => args@.log_file is None && !args@.tui,
        },
{
    match &args.log_file {
        Some(path) => LogTarget::File(path.clone()),
        None => if args.tui {
            LogTarget::Nowhere
        } else {
            LogTarget::Stderr
        },
    }
}

/// No two options are spelled alike.
proof fn lemma_options_differ()
    ensures
        "--name"@.len() == 6 && "--name"@[2] == 'n',
        "--port"@.len() == 6 && "--port"@[2] == 'p',
        "--help"@.len() == 6 && "--help"@[2] == 'h',
        "--mac"@.len() == 5 && "--mac"@[2] == 'm',
        "--tui"@.len() == 5 && "--tui"@[2] == 't',
        "--password"@.len() == 10 && "--password"@[2] == 'p',
        "--log-file"@.len() == 10 && "--log-file"@[2] == 'l',
        "--no-audio"@.len() == 10 && "--no-audio"@[2] == 'n' && "--no-audio"@[6] == 'u',
        "--no-avahi"@.len() == 10 && "--no-avahi"@[2] == 'n' && "--no-avahi"@[6] == 'v',
        "--pincode"@.len() == 9,
        "--alsa-device"@.len() == 13,
        "--dashboard-listen"@.len() == 18,
        "--tui-images"@.len() == 12,
        "-h"@.len() == 2,
{
    reveal_strlit("--name");
    reveal_strlit("--port");
    reveal_strlit("--help");
    reveal_strlit("--mac");
    reveal_strlit("--tui");
    reveal_strlit("--password");
    reveal_strlit("--log-file");
    reveal_strlit("--no-audio");
    reveal_strlit("--no-avahi");
    reveal_strlit("--pincode");
    reveal_strlit("--alsa-device");
    reveal_strlit("--dashboard-listen");
    reveal_strlit("--tui-images");
    reveal_strlit("-h");
}

/// One argument with its value, and then the rest.
proof fn lemma_option_first(option: Seq<char>, value: Seq<char>, rest: Seq<Seq<char>>)
    ensures
        (seq![option, value] + rest)[0] == option,
        (seq![option, value] + rest)[1] == value,
        (seq![option, value] + rest).skip(2) == rest,
        (seq![option] + rest)[0] == option,
        (seq![option] + rest).skip(1) == rest,
{
    assert((seq![option, value] + rest).skip(2) =~= rest);
    assert((seq![option] + rest).skip(1) =~= rest);
}

/// Each option that takes a text sets what it is named after to the text that
/// follows it, and nothing else; what follows is read as before.
pub proof fn law_options_set_what_they_name(
    args: ArgsContent,
    value: Seq<char>,
    rest: Seq<Seq<char>>,
)
    ensures
        parsed_args(seq!["--name"@, value] + rest, args) == parsed_args(
            rest,
            ArgsContent { name: Some(value), ..args },
        ),
        parsed_args(seq!["--password"@, value] + rest, args) == parsed_args(
            rest,
            ArgsContent { password: Some(value), ..args },
        ),
        parsed_args(seq!["--pincode"@, value] + rest, args) == parsed_args(
            rest,
            ArgsContent { password: Some(value), ..args },
        ),
        parsed_args(seq!["--alsa-device"@, value] + rest, args) == parsed_args(
            rest,
            ArgsContent { alsa_device: Some(value), ..args },
        ),
        parsed_args(seq!["--log-file"@, value] + rest, args) == parsed_args(
            rest,
            ArgsContent { log_file: Some(value), ..args },
        ),
        parsed_args(seq!["--dashboard-listen"@, value] + rest, args) == parsed_args(
            rest,
            ArgsContent { dashboard_listen: Some(value), ..args },
        ),
{
    lemma_options_differ();
    lemma_option_first("--name"@, value, rest);
    lemma_option_first("--password"@, value, rest);
    lemma_option_first("--pincode"@, value, rest);
    lemma_option_first("--alsa-device"@, value, rest);
    lemma_option_first("--log-file"@, value, rest);
    lemma_option_first("--dashboard-listen"@, value, rest);
}

/// A port is a decimal number of 16 bits, an address is six bytes in hex, and a
/// way to show images is one of four words; anything else is refused.
pub proof fn law_values_must_fit_their_option(
    args: ArgsContent,
    port: u16,
    value: Seq<char>,
    rest: Seq<Seq<char>>,
)
    ensures
        parsed_args(seq!["--port"@, number::decimal(port as nat)] + rest, args) == parsed_args(
            rest,
            ArgsContent { port: Some(port), ..args },
        ),
        number::parsed_unsigned(value, 10, 65_535) is None ==> parsed_args(
            seq!["--port"@, value] + rest,
            args,
        ) == Err::<ArgsContent, _>(UsageContent::Usage),
        mac::mac_of(value) is Some ==> parsed_args(seq!["--mac"@, value] + rest, args)
            == parsed_args(rest, ArgsContent { mac: mac::mac_of(value), ..args }),
        mac::mac_of(value) is None ==> parsed_args(seq!["--mac"@, value] + rest, args) == Err::<
            ArgsContent,
            _,
        >(UsageContent::Usage),
        value != "auto"@ && value != "kitty"@ && value != "iterm2"@ && value != "none"@
            ==> parsed_args(seq!["--tui-images"@, value] + rest, args) == Err::<ArgsContent, _>(
            UsageContent::Usage,
        ),
{
    lemma_options_differ();
    lemma_option_first("--port"@, number::decimal(port as nat), rest);
    lemma_option_first("--port"@, value, rest);
    lemma_option_first("--mac"@, value, rest);
    lemma_option_first("--tui-images"@, value, rest);
    number::law_decimal_reads_back(port as nat, u16::MAX as int);
}

/// The ways to show images by their names; `auto` leaves it to be found out.
pub proof fn law_image_protocols_have_names(args: ArgsContent, rest: Seq<Seq<char>>)
    ensures
        parsed_args(seq!["--tui-images"@, "kitty"@] + rest, args) == parsed_args(
            rest,
            ArgsContent { images: Some(Protocol::Kitty), ..args },
        ),
        parsed_args(seq!["--tui-images"@, "iterm2"@] + rest, args) == parsed_args(
            rest,
            ArgsContent { images: Some(Protocol::Iterm2), ..args },
        ),
        parsed_args(seq!["--tui-images"@, "none"@] + rest, args) == parsed_args(
            rest,
            ArgsContent { images: Some(Protocol::Off), ..args },
        ),
        parsed_args(seq!["--tui-images"@, "auto"@] + rest, args) == parsed_args(
            rest,
            ArgsContent { images: None, ..args },
        ),
{
    lemma_options_differ();
    reveal_strlit("kitty");
    reveal_strlit("iterm2");
    reveal_strlit("none");
    reveal_strlit("auto");
    assert("kitty"@.len() == 5 && "iterm2"@.len() == 6 && "none"@.len() == 4 && "auto"@.len() == 4);
    assert("none"@[0] == 'n' && "auto"@[0] == 'a');
    lemma_option_first("--tui-images"@, "kitty"@, rest);
    lemma_option_first("--tui-images"@, "iterm2"@, rest);
    lemma_option_first("--tui-images"@, "none"@, rest);
    lemma_option_first("--tui-images"@, "auto"@, rest);
}

/// Each flag switches what it is named after, and nothing else.
pub proof fn law_flags_switch_what_they_name(args: ArgsContent, rest: Seq<Seq<char>>)
    ensures
        parsed_args(seq!["--no-audio"@] + rest, args) == parsed_args(
            rest,
            ArgsContent { alsa_device: None, ..args },
        ),
        parsed_args(seq!["--tui"@] + rest, args) == parsed_args(
            rest,
            ArgsContent { tui: true, ..args },
        ),
        parsed_args(seq!["--no-avahi"@] + rest, args) == parsed_args(
            rest,
            ArgsContent { avahi: false, ..args },
        ),
        parsed_args(seq!["--help"@] + rest, args) == Err::<ArgsContent, _>(UsageContent::Usage),
        parsed_args(seq!["-h"@] + rest, args) == Err::<ArgsContent, _>(UsageContent::Usage),
        parsed_args(Seq::empty(), args) == Ok::<_, UsageContent>(args),
{
    lemma_options_differ();
    lemma_option_first("--no-audio"@, Seq::empty(), rest);
    lemma_option_first("--tui"@, Seq::empty(), rest);
    lemma_option_first("--no-avahi"@, Seq::empty(), rest);
    lemma_option_first("--help"@, Seq::empty(), rest);
    lemma_option_first("-h"@, Seq::empty(), rest);
}

/// An option at the end, without its value, is refused, and so is a word that is
/// no argument, by its name.
pub proof fn law_nothing_else_is_an_argument(
    args: ArgsContent,
    word: Seq<char>,
    rest: Seq<Seq<char>>,
)
    ensures
        word == "--name"@ || word == "--port"@ || word == "--mac"@ || word == "--password"@ || word
            == "--pincode"@ || word == "--alsa-device"@ || word == "--log-file"@ || word
            == "--dashboard-listen"@ || word == "--tui-images"@ ==> parsed_args(
            seq![word],
            args,
        ) == Err::<ArgsContent, _>(UsageContent::Usage),
        word != "--name"@ && word != "--port"@ && word != "--mac"@ && word != "--password"@ && word
            != "--pincode"@ && word != "--alsa-device"@ && word != "--log-file"@ && word
            != "--dashboard-listen"@ && word != "--tui-images"@ && word != "--no-audio"@ && word
            != "--tui"@ && word != "--no-avahi"@ && word != "-h"@ && word != "--help"@
            ==> parsed_args(seq![word] + rest, args) == Err::<ArgsContent, _>(
            UsageContent::Unknown(word),
        ),
{
    lemma_option_first(word, Seq::empty(), rest);
}

/// Without arguments the receiver is advertised, plays on the default device, and
/// shows and asks for nothing.
pub proof fn law_nothing_is_asked_for_by_default()
    ensures
        default_args().avahi,
        default_args().alsa_device == Some("default"@),
        !default_args().tui,
        default_args().name is None,
        default_args().port is None,
        default_args().mac is None,
        default_args().password is None,
        default_args().log_file is None,
        default_args().dashboard_listen is None,
        default_args().images is None,
{
}

/// Seconds are rounded to the nearest, and of two that are as near to the even
/// one.
pub proof fn law_seconds_are_rounded(nanos: int)
    requires
        nanos >= 0,
    ensures
        -500_000_000 <= rounded_secs(nanos) * 1_000_000_000 - nanos <= 500_000_000,
        nanos % 1_000_000_000 == 500_000_000 ==> rounded_secs(nanos) % 2 == 0,
{
}

/// What the log says, event by event; of the volume it says nothing.
pub proof fn law_the_log_says_what_happened(
    rate: u32,
    channels: u8,
    peer: Seq<char>,
    title: Seq<char>,
    artist: Seq<char>,
    album: Seq<char>,
    content_type: Seq<char>,
    data: Seq<u8>,
    db: Seq<char>,
)
    ensures
        logged(EventContent::SessionStarted { rate, channels, peer }) == Some(
            "session started ("@ + number::decimal(rate as nat) + " Hz, "@ + number::decimal(
                channels as nat,
            ) + "ch) from "@ + peer,
        ),
        logged(
            EventContent::Metadata { title: Some(title), artist: Some(artist), album: Some(album) },
        ) == Some("now playing: "@ + artist + " \u{2014} "@ + title + " ("@ + album + ")"@),
        logged(EventContent::Metadata { title: None, artist: None, album: None }) == Some(
            "now playing: "@ + "?"@ + " \u{2014} "@ + "?"@ + " ("@ + "?"@ + ")"@,
        ),
        data.len() == 0 ==> logged(EventContent::Artwork { content_type, data }) == Some(
            "artwork cleared ("@ + content_type + ")"@,
        ),
        data.len() > 0 ==> logged(EventContent::Artwork { content_type, data }) == Some(
            "artwork: "@ + content_type + ", "@ + number::decimal(data.len()) + " bytes"@,
        ),
        logged(EventContent::Flushed) == Some("flushed"@),
        logged(EventContent::SessionEnded) == Some("session ended"@),
        logged(EventContent::Volume { db }) is None,
{
}

} // verus!

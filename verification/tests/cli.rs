//! The command line and the log.

use openairplay1::cli::{
    log_event, log_target, parse_args, Args, Level, LogTarget, Protocol, UsageError,
};
use openairplay1::events::Event;
use openairplay1::mac::{discover, parse_mac, Interface};
use openairplay1::time::Duration;

fn parse(words: &[&str]) -> Result<Args, UsageError> {
    let words: Vec<String> = words.iter().map(|w| w.to_string()).collect();
    parse_args(&words)
}

#[test]
fn without_arguments_everything_has_its_default() {
    let args = parse(&[]).unwrap();
    assert_eq!(args.name, None);
    assert_eq!(args.port, None);
    assert_eq!(args.mac, None);
    assert!(args.avahi);
    assert_eq!(args.password, None);
    assert_eq!(args.alsa_device.as_deref(), Some("default"));
    assert!(!args.tui);
    assert_eq!(args.log_file, None);
    assert_eq!(args.dashboard_listen, None);
    assert_eq!(args.images, None);
}

#[test]
fn every_argument_is_taken() {
    let args = parse(&[
        "--name", "Living Room", "--port", "5001", "--mac", "aa:bb:cc:dd:ee:ff", "--alsa-device",
        "plughw:0,0", "--tui", "--log-file", "log", "--tui-images", "kitty", "--no-avahi",
        "--password", "1234",
    ])
    .unwrap();
    assert_eq!(args.name.as_deref(), Some("Living Room"));
    assert_eq!(args.port, Some(5001));
    assert_eq!(args.mac, Some([0xaa, 0xbb, 0xcc, 0xdd, 0xee, 0xff]));
    assert!(!args.avahi);
    assert_eq!(args.password.as_deref(), Some("1234"));
    assert_eq!(args.alsa_device.as_deref(), Some("plughw:0,0"));
    assert!(args.tui);
    assert_eq!(args.log_file.as_deref(), Some("log"));
    assert_eq!(args.images, Some(Protocol::Kitty));
    let args = parse(&["--dashboard-listen", "127.0.0.1:7392"]).unwrap();
    assert_eq!(args.dashboard_listen.as_deref(), Some("127.0.0.1:7392"));
    assert_eq!((args.name, args.port, args.mac, args.log_file), (None, None, None, None));
    assert!(args.avahi);
    assert_eq!(args.alsa_device.as_deref(), Some("default"));
    assert!(matches!(parse(&["--dashboard-listen"]), Err(UsageError::Usage)));
    assert_eq!(parse(&["--no-audio"]).unwrap().alsa_device, None);
    assert_eq!(parse(&["--pincode", "1"]).unwrap().password.as_deref(), Some("1"));
}

#[test]
fn the_last_of_an_argument_counts() {
    let args = parse(&["--name", "a", "--name", "--tui", "--tui-images", "none", "--tui-images", "auto"]);
    let args = args.unwrap();
    assert_eq!(args.name.as_deref(), Some("--tui"), "a value may look like anything");
    assert!(!args.tui);
    assert_eq!(args.images, None);
}

#[test]
fn bad_command_lines_are_refused() {
    for words in [
        &["-h"][..],
        &["--help"],
        &["--name"],
        &["--port", "65536"],
        &["--port", "x"],
        &["--mac", "aa:bb"],
        &["--tui-images", "sixel"],
    ] {
        assert_eq!(parse(words).err(), Some(UsageError::Usage), "{words:?}");
    }
    assert_eq!(
        parse(&["--loud"]).err(),
        Some(UsageError::Unknown("--loud".into()))
    );
}

#[test]
fn graphics_protocols_have_names() {
    assert_eq!(Protocol::parse("kitty"), Some(Protocol::Kitty));
    assert_eq!(Protocol::parse("iterm2"), Some(Protocol::Iterm2));
    assert_eq!(Protocol::parse("none"), Some(Protocol::Off));
    assert_eq!(Protocol::parse("auto"), None);
}

#[test]
fn macs_have_six_hex_bytes() {
    assert_eq!(parse_mac(" 0:1:2:a:B:ff "), Some([0, 1, 2, 10, 11, 255]));
    assert_eq!(parse_mac("00:11:22:33:44"), None);
    assert_eq!(parse_mac("00:11:22:33:44:55:66"), None);
    assert_eq!(parse_mac("00:11:22:33:44:100"), None);
    assert_eq!(parse_mac("00:11:22:33:44:gg"), None);
    assert_eq!(parse_mac(""), None);
}

#[test]
fn events_are_logged_one_line_each() {
    let line = |event: Event| {
        log_event(&event).map(|line| {
            assert_eq!(line.level, Level::Debug);
            line.text
        })
    };
    assert_eq!(
        line(Event::SessionStarted {
            rate: 44100,
            channels: 2,
            peer: "10.0.0.1".into()
        }),
        Some("session started (44100 Hz, 2ch) from 10.0.0.1".into())
    );
    assert_eq!(
        line(Event::Progress {
            elapsed: Duration::from_nanos(1_500_000_000),
            duration: Duration::from_nanos(2_500_000_000)
        }),
        Some("progress 2s / 2s".into())
    );
    assert_eq!(
        line(Event::Metadata {
            title: Some("T".into()),
            artist: None,
            album: Some("A".into())
        }),
        Some("now playing: ? \u{2014} T (A)".into())
    );
    assert_eq!(
        line(Event::Artwork {
            content_type: "image/png".into(),
            data: vec![1, 2]
        }),
        Some("artwork: image/png, 2 bytes".into())
    );
    assert_eq!(
        line(Event::Artwork {
            content_type: "image/none".into(),
            data: vec![]
        }),
        Some("artwork cleared (image/none)".into())
    );
    assert_eq!(line(Event::SessionEnded), Some("session ended".into()));
    assert_eq!(line(Event::Flushed), Some("flushed".into()));
    assert_eq!(line(Event::Volume { db: "0".into() }), None);
}

#[test]
fn the_log_goes_where_it_does_no_harm() {
    let target = |words: &[&str]| log_target(&parse(words).unwrap());
    assert_eq!(target(&[]), LogTarget::Stderr);
    assert_eq!(target(&["--tui"]), LogTarget::Nowhere);
    assert_eq!(target(&["--log-file", "f"]), LogTarget::File("f".into()));
    assert_eq!(target(&["--tui", "--log-file", "f"]), LogTarget::File("f".into()));
}

#[test]
fn the_first_usable_interface_gives_its_mac() {
    let interface = |loopback: bool, up: bool, address: &str| Interface {
        loopback,
        up,
        address: address.to_string(),
    };
    assert_eq!(discover(&[]), None);
    assert_eq!(
        discover(&[
            interface(true, true, "00:00:00:00:00:00"),
            interface(false, false, "01:00:00:00:00:00"),
            interface(false, true, ""),
            interface(false, true, "02:03:04:05:06:07\n"),
            interface(false, true, "09:09:09:09:09:09"),
        ]),
        Some([2, 3, 4, 5, 6, 7])
    );
    assert_eq!(discover(&[interface(true, true, "01:02:03:04:05:06")]), None);
}

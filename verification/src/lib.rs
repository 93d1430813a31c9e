//! An embeddable AirPlay 1 (RAOP / AirTunes) audio receiver whose protocol
//! logic is verified.
//!
//! Stock Apple senders discover a receiver, handshake with it and stream ALAC
//! to it. This library decides everything on the way from the network to PCM:
//! it reads requests and packets, answers them, orders, decrypts and times the
//! audio, and says what to tell the host. It does no I/O of its own: the host
//! owns sockets, threads, the ALAC decoder and the audio device, hands bytes
//! and instants in, and gets decisions back.
//!
//! One sender, one stream, one output.
//!
//! - [`server`], [`session`], [`rtsp`], [`sdp`], [`dmap`]: the control
//!   connection, from bytes to responses and [`Event`]s;
//! - [`crypto`]: the `Apple-Challenge`, the session key and the password;
//! - [`rtp`], [`jitter`], [`audio`], [`clock`]: the three UDP channels;
//! - [`decode`], [`player`], [`sink`], [`alsa_sink`]: playback;
//! - [`receiver`], [`config`], [`avahi`], [`mac`]: set-up and advertisement;
//! - [`cli`], [`tui`], [`protocol`]: what a program around it reads and shows;
//! - [`text`], [`utf8`], [`number`], [`net`], [`time`]: the ground they stand
//!   on.
#![allow(unused_imports)]

pub mod alsa_sink;
pub mod audio;
pub mod avahi;
pub mod cli;
pub mod clock;
pub mod config;
pub mod crypto;
pub mod decode;
pub mod dmap;
pub mod events;
pub mod jitter;
pub mod mac;
pub mod net;
pub mod number;
pub mod player;
pub mod protocol;
pub mod receiver;
pub mod rtp;
pub mod rtsp;
pub mod sdp;
pub mod server;
pub mod session;
pub mod sink;
pub mod text;
pub mod time;
pub mod tui;
pub mod utf8;

pub use crate::audio::DecryptedAudio;
pub use crate::avahi::txt_records;
pub use crate::config::Config;
pub use crate::events::Event;
pub use crate::receiver::{Receiver, ReceiverBuilder};
pub use crate::sink::AudioSink;

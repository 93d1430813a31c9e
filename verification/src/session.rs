//! Per-connection RAOP session state machine: ANNOUNCE, SETUP, RECORD, and the
//! parameters that a sender sets along the way.
//!
//! A session decides; the host acts. SETUP comes in two halves around the
//! binding of the UDP sockets; what a request does to a running stream comes
//! back as an [`Effect`].

use vstd::prelude::*;

use crate::crypto;
use crate::crypto::decrypt_stream_key;
use crate::dmap;
use crate::events;
use crate::events::{Event, EventContent};
use crate::number;
use crate::number::{parse_unsigned, push_decimal, spells_float};
use crate::rtsp;
use crate::rtsp::{Request, RequestContent, Response, ResponseContent};
use crate::sdp;
use crate::sdp::{AlacConfig, Sdp};
use crate::text;
use crate::text::{
    chars_of, eq_ignoring_case, find, lines, same, split, string_of, strip_prefix, trim,
};
use crate::time;
use crate::time::frames_to_duration;
use crate::utf8;
use crate::utf8::from_utf8_lossy;

verus! {

/// A single-streaming-session gate shared across RTSP connections. AirPlay 1
/// senders assume exclusive use of the receiver; a second one that reaches
/// SETUP while another is streaming is refused.
#[derive(Debug)]
pub struct SessionSlot {
    held: bool,
}

impl View for SessionSlot {
    type V = bool;

    /// Whether a session holds it.
    closed spec fn view(&self) -> bool {
        self.held
    }
}

impl SessionSlot {
    /// A free slot.
    pub fn new() -> (slot: SessionSlot)
        ensures
            !slot@,
    {
        SessionSlot { held: false }
    }

    /// Take the slot if it is free.
    pub fn try_acquire(&mut self) -> (acquired: bool)
        ensures
            acquired == !old(self)@,
            final(self)@,
    {
        let acquired = !self.held;
        self.held = true;
        acquired
    }

    /// Give the slot back.
    pub fn release(&mut self)
        ensures
            !final(self)@,
    {
        self.held = false;
    }
}

/// Cryptographic and format parameters captured at ANNOUNCE.
#[derive(Debug, Clone, Copy)]
pub struct StreamParams {
    pub encrypted: bool,
    pub key: [u8; 16],
    pub iv: [u8; 16],
    pub alac: AlacConfig,
}

/// Where the current track starts and ends, as RTP timestamps.
#[derive(Debug, Clone, Copy, PartialEq, Eq, Structural)]
pub struct Track {
    pub start: u32,
    pub end: u32,
}

/// What a session knows, as a mathematical value.
pub struct SessionState {
    /// The stream that was announced.
    pub params: Option<StreamParams>,
    /// Whether a stream is set up and not torn down.
    pub streaming: bool,
    /// Metadata and artwork that arrived outside a session, to be told inside.
    pub pending_metadata: Option<EventContent>,
    pub pending_artwork: Option<EventContent>,
    /// The address that the client connected from.
    pub peer: Seq<char>,
    /// Whether this session holds the streaming slot.
    pub holds_slot: bool,
    /// Where the sender last said that the track starts and ends.
    pub track: Option<Track>,
    /// How many flushes of the stream the host has not been told of yet.
    pub owed: nat,
}

impl SessionState {
    /// A session that streams holds the slot and has no metadata or artwork left
    /// to tell; one that does not has no flushes left to tell of.
    pub open spec fn wf(self) -> bool {
        &&& self.streaming ==> self.holds_slot
        &&& !self.streaming ==> self.owed == 0
        &&& self.streaming ==> self.pending_metadata is None && self.pending_artwork is None
        &&& self.pending_metadata matches Some(event) ==> event is Metadata
        &&& self.pending_artwork matches Some(event) ==> event is Artwork
    }
}

/// What an optional event says.
pub open spec fn optional_event(event: Option<Event>) -> Option<EventContent> {
    match event {
        Some(event) => Some(event@),
        None => None,
    }
}

/// One client's session.
pub struct Session {
    params: Option<StreamParams>,
    streaming: bool,
    pending_metadata: Option<Event>,
    pending_artwork: Option<Event>,
    peer: String,
    holds_slot: bool,
    track: Option<Track>,
    /// What is to be told of the flushes that are under way.
    owed: Vec<Event>,
}

impl View for Session {
    type V = SessionState;

    closed spec fn view(&self) -> SessionState {
        SessionState {
            params: self.params,
            streaming: self.streaming,
            pending_metadata: optional_event(self.pending_metadata),
            pending_artwork: optional_event(self.pending_artwork),
            peer: self.peer@,
            holds_slot: self.holds_slot,
            track: self.track,
            owed: self.owed@.len(),
        }
    }
}

/// What a request does to the running stream.
#[derive(Debug, Clone, Copy, PartialEq, Eq)]
pub enum Effect {
    /// Nothing.
    Nothing,
    /// Stop the UDP tasks and the player.
    Stop,
    /// Discard buffered audio, and expect this sequence number next (if any).
    /// The session is told by [`Session::relay`] when it is done.
    Flush(Option<u16>),
}

/// The answer to a request: the response, what to tell the host, and what to do
/// to the stream.
pub struct Outcome {
    pub response: Response,
    pub events: Vec<Event>,
    pub effect: Effect,
}

/// The client's UDP ports, from a SETUP that is in order.
#[derive(Debug, Clone, Copy)]
pub struct SetupPlan {
    pub control_port: u16,
    pub timing_port: u16,
    pub params: StreamParams,
}

/// The local UDP ports that were bound for a stream.
#[derive(Debug, Clone, Copy)]
pub struct BoundPorts {
    pub audio: u16,
    pub control: u16,
    pub timing: u16,
}

/// Whether `alac` is the configuration that an `fmtp` value gives.
pub open spec fn is_config(alac: AlacConfig, fmtp: Seq<char>) -> bool {
    &&& sdp::fmtp_ok(fmtp)
    &&& alac.wf()
    &&& forall|i: int| 0 <= i < 12 ==> #[trigger] alac.raw@[i] == sdp::fmtp_number(fmtp, i)->0
}

/// The key and IV that an ANNOUNCE gives: none if it is unencrypted; an error
/// if it gives one without the other, or material that is no good.
pub open spec fn announced_keys(lines: Seq<Seq<char>>, key_pem: Seq<char>) -> Result<
    Option<(Seq<u8>, Seq<u8>)>,
    (),
> {
    match (sdp::last_attribute(lines, "rsaaeskey"@), sdp::last_attribute(lines, "aesiv"@)) {
        (None, None) => Ok(None),
        (Some(rsaaeskey), Some(aesiv)) => match crypto::stream_key(rsaaeskey, aesiv, key_pem) {
            Ok(keys) => Ok(Some(keys)),
            Err(_) => Err(()),
        },
        _ => Err(()),
    }
}

/// The status of the response to an ANNOUNCE with this SDP body: 400 without a
/// usable `fmtp`, 456 with unusable crypto material.
pub open spec fn announce_status(lines: Seq<Seq<char>>, key_pem: Seq<char>) -> ResponseContent {
    if sdp::last_attribute(lines, "fmtp"@) is None || !sdp::fmtp_ok(
        sdp::last_attribute(lines, "fmtp"@)->0,
    ) {
        ResponseContent::status_only(400, "Bad Request"@)
    } else if announced_keys(lines, key_pem) is Err {
        ResponseContent::status_only(456, "Header Field Not Valid for Resource"@)
    } else {
        ResponseContent::status_only(200, "OK"@)
    }
}

/// Whether `params` are those that an ANNOUNCE in order gives.
pub open spec fn is_announced(
    params: StreamParams,
    lines: Seq<Seq<char>>,
    key_pem: Seq<char>,
) -> bool {
    &&& is_config(params.alac, sdp::last_attribute(lines, "fmtp"@)->0)
    &&& params.encrypted == (announced_keys(lines, key_pem)->Ok_0 is Some)
    &&& announced_keys(lines, key_pem)->Ok_0 matches Some(keys) ==> params.key@ == keys.0
        && params.iv@ == keys.1
}

/// The value after the first of the parts that begins with `prefix`.
pub open spec fn first_with_prefix(parts: Seq<Seq<char>>, prefix: Seq<char>) -> Option<Seq<char>>
    decreases parts.len(),
{
    if parts.len() == 0 {
        None
    } else if text::has_prefix(text::trimmed(parts[0]), prefix) {
        Some(text::trimmed(parts[0]).skip(prefix.len() as int))
    } else {
        first_with_prefix(parts.skip(1), prefix)
    }
}

/// The number that a `;`-separated header gives for `name`, if the first part
/// that begins with `name=` goes on with one that fits 16 bits.
pub open spec fn header_number(header: Seq<char>, name: Seq<char>) -> Option<int> {
    match first_with_prefix(text::split_of(header, ';'), name + "="@) {
        None => None,
        Some(value) => number::parsed_unsigned(text::trimmed(value), 10, u16::MAX as int),
    }
}

/// The 16-bit number that a `;`-separated header gives for `name`.
pub fn transport_param(header: &str, name: &str) -> (value: Option<u16>)
    ensures
        value is Some <==> header_number(header@, name@) is Some,
        value is Some ==> value->0 == header_number(header@, name@)->0,
{
    let chars = chars_of(header);
    let parts = split(chars.as_slice(), ';');
    let ghost contents = text::contents(parts@);
    let mut key = name.to_owned();
    key.append("=");
    let prefix = chars_of(key.as_str());
    let mut i: usize = 0;
    assert(contents.skip(0) =~= contents);
    while i < parts.len()
        invariant
            i <= parts@.len(),
            contents == text::contents(parts@),
            contents == text::split_of(header@, ';'),
            prefix@ == name@ + "="@,
            first_with_prefix(contents, prefix@) == first_with_prefix(
                contents.skip(i as int),
                prefix@,
            ),
        decreases parts@.len() - i,
    {
        assert(contents.skip(i as int).skip(1) =~= contents.skip(i + 1));
        assert(contents[i as int] == parts@[i as int]@);
        if let Some(value) = strip_prefix(trim(parts[i]), prefix.as_slice()) {
            return match parse_unsigned(trim(value), 10, u16::MAX as u64) {
                Some(n) => Some(n as u16),
                None => None,
            };
        }
        i += 1;
    }
    None
}

/// What a request gets that comes in the wrong order.
pub open spec fn wrong_state() -> ResponseContent {
    ResponseContent::status_only(455, "Method Not Valid in This State"@)
}

/// What a second client gets.
pub open spec fn refused() -> ResponseContent {
    ResponseContent::status_only(453, "Not Enough Bandwidth"@)
}

/// What a request gets that lacks what it needs.
pub open spec fn bad_request() -> ResponseContent {
    ResponseContent::status_only(400, "Bad Request"@)
}

/// The client's control and timing ports, if a SETUP gives both.
pub open spec fn setup_ports(request: RequestContent) -> Option<(int, int)> {
    match rtsp::header_value(request.headers, "Transport"@) {
        None => None,
        Some(transport) => match (
            header_number(transport, "control_port"@),
            header_number(transport, "timing_port"@),
        ) {
            (Some(control), Some(timing)) => Some((control, timing)),
            _ => None,
        },
    }
}

/// The `Transport` header of the response to a SETUP.
pub open spec fn transport_text(bound: BoundPorts) -> Seq<char> {
    "RTP/AVP/UDP;unicast;interleaved=0-1;mode=record;control_port="@ + number::decimal(
        bound.control as nat,
    ) + ";timing_port="@ + number::decimal(bound.timing as nat) + ";server_port="@
        + number::decimal(bound.audio as nat)
}

/// The response to a SETUP in order, once the sockets are bound or could not be.
pub open spec fn setup_response(bound: Option<BoundPorts>) -> ResponseContent {
    match bound {
        None => ResponseContent::status_only(500, "Internal Server Error"@),
        Some(ports) => ResponseContent::status_only(200, "OK"@).with(
            "Transport"@,
            transport_text(ports),
        ).with("Session"@, "1"@),
    }
}

/// So many flushes, told of.
pub open spec fn flushed_times(n: nat) -> Seq<EventContent> {
    Seq::new(n, |i: int| EventContent::Flushed)
}

/// An optional event as a run of events.
pub open spec fn if_any(event: Option<EventContent>) -> Seq<EventContent> {
    match event {
        Some(event) => seq![event],
        None => Seq::empty(),
    }
}

/// The media type of a `Content-Type`, without its parameters.
pub open spec fn media_type(content_type: Seq<char>) -> Seq<char> {
    text::trimmed(content_type.take(text::position(content_type, ';')))
}

/// Whether a media type is that of DMAP track metadata.
pub open spec fn is_dmap(media: Seq<char>) -> bool {
    text::same_ignoring_case(media, "application/x-dmap-tagged"@)
}

/// Whether a media type is that of an image.
pub open spec fn is_image(media: Seq<char>) -> bool {
    media.len() >= 6 && text::same_ignoring_case(media.take(6), "image/"@)
}

/// What the fields of a track say to the host.
pub open spec fn metadata_event(fields: Seq<dmap::Tagged>) -> EventContent {
    EventContent::Metadata {
        title: dmap::field_text(fields, dmap::tag_minm()),
        artist: dmap::field_text(fields, dmap::tag_asar()),
        album: dmap::field_text(fields, dmap::tag_asal()),
    }
}

/// The three timestamps of a `progress:` value, start, current and end, if it
/// has exactly three.
pub open spec fn progress_parts(value: Seq<char>) -> Option<(u32, u32, u32)> {
    let parts = text::split_of(value, '/');
    if parts.len() != 3 {
        None
    } else {
        match (
            number::parsed_unsigned(text::trimmed(parts[0]), 10, u32::MAX as int),
            number::parsed_unsigned(text::trimmed(parts[1]), 10, u32::MAX as int),
            number::parsed_unsigned(text::trimmed(parts[2]), 10, u32::MAX as int),
        ) {
            (Some(start), Some(current), Some(end)) => Some(
                (start as u32, current as u32, end as u32),
            ),
            _ => None,
        }
    }
}

/// `a - b`, or 0 if that is negative.
pub open spec fn less(a: u32, b: u32) -> u32 {
    if a >= b {
        (a - b) as u32
    } else {
        0
    }
}

/// The position that three timestamps stand for: how far the current one is
/// from the start, and the end from the start, in time. Timestamps wrap and a
/// seek can put `current` before `start`; neither reads as a long time.
pub open spec fn position_event(parts: (u32, u32, u32), rate: u32) -> EventContent {
    EventContent::Progress {
        elapsed: time::frames_nanos(less(parts.1, parts.0), rate),
        duration: time::frames_nanos(less(parts.2, parts.0), rate),
    }
}

impl SessionState {
    /// What a `progress:` line stands for: nothing outside a session, where a
    /// position means nothing.
    pub open spec fn progress_of(self, line: Seq<char>) -> Option<(u32, u32, u32)> {
        let t = text::trimmed(line);
        if self.streaming && self.params is Some && !text::has_prefix(t, "volume:"@)
            && text::has_prefix(t, "progress:"@) {
            progress_parts(text::trimmed(t.skip("progress:"@.len() as int)))
        } else {
            None
        }
    }

    /// What a line of `text/parameters` tells the host: a volume that is a
    /// number, or a position.
    pub open spec fn line_event(self, line: Seq<char>) -> Option<EventContent> {
        let t = text::trimmed(line);
        if text::has_prefix(t, "volume:"@) {
            let db = text::trimmed(t.skip("volume:"@.len() as int));
            if number::is_float_text(db) {
                Some(EventContent::Volume { db })
            } else {
                None
            }
        } else {
            match self.progress_of(line) {
                Some(parts) => Some(position_event(parts, self.params->0.alac.sample_rate)),
                None => None,
            }
        }
    }

    /// What the lines of a `text/parameters` body tell the host, in order.
    pub open spec fn line_events(self, lines: Seq<Seq<char>>) -> Seq<EventContent>
        decreases lines.len(),
    {
        if lines.len() == 0 {
            Seq::empty()
        } else {
            self.line_events(lines.drop_last()) + if_any(self.line_event(lines.last()))
        }
    }

    /// The track after those lines: the last position's.
    pub open spec fn line_track(self, lines: Seq<Seq<char>>) -> Option<Track>
        decreases lines.len(),
    {
        if lines.len() == 0 {
            self.track
        } else {
            match self.progress_of(lines.last()) {
                Some(parts) => Some(Track { start: parts.0, end: parts.2 }),
                None => self.line_track(lines.drop_last()),
            }
        }
    }

    /// The session after an event that the host expects only inside one: it is
    /// told at once, or kept (the latest of its kind) until a session starts.
    pub open spec fn after_session_event(self, event: EventContent) -> SessionState {
        if self.streaming {
            self
        } else if event is Artwork {
            SessionState { pending_artwork: Some(event), ..self }
        } else {
            SessionState { pending_metadata: Some(event), ..self }
        }
    }

    /// What is told of such an event now.
    pub open spec fn told_of(self, event: EventContent) -> Seq<EventContent> {
        if self.streaming {
            seq![event]
        } else {
            Seq::empty()
        }
    }

    /// The session after a SET_PARAMETER.
    pub open spec fn after_parameter(
        self,
        content_type: Option<Seq<char>>,
        body: Seq<u8>,
    ) -> SessionState {
        if content_type is Some && is_dmap(media_type(content_type->0)) {
            match dmap::track_fields(body) {
                Some(fields) => self.after_session_event(metadata_event(fields)),
                None => self,
            }
        } else if content_type is Some && is_image(media_type(content_type->0)) {
            self.after_session_event(
                EventContent::Artwork { content_type: media_type(content_type->0), data: body },
            )
        } else {
            SessionState {
                track: self.line_track(text::lines_of(utf8::utf8_lossy(body))),
                ..self
            }
        }
    }

    /// What a SET_PARAMETER tells the host, by its content type: DMAP track
    /// metadata, cover art, or (any other) `text/parameters` lines.
    pub open spec fn parameter_events(
        self,
        content_type: Option<Seq<char>>,
        body: Seq<u8>,
    ) -> Seq<EventContent> {
        if content_type is Some && is_dmap(media_type(content_type->0)) {
            match dmap::track_fields(body) {
                Some(fields) => self.told_of(metadata_event(fields)),
                None => Seq::empty(),
            }
        } else if content_type is Some && is_image(media_type(content_type->0)) {
            self.told_of(
                EventContent::Artwork { content_type: media_type(content_type->0), data: body },
            )
        } else {
            self.line_events(text::lines_of(utf8::utf8_lossy(body)))
        }
    }

    /// The session once its stream is set up.
    pub open spec fn started(self) -> SessionState {
        SessionState {
            streaming: true,
            pending_metadata: None,
            pending_artwork: None,
            track: None,
            owed: 0,
            ..self
        }
    }

    /// The start of a session with a stream of this format.
    pub open spec fn start_event(self, params: StreamParams) -> EventContent {
        EventContent::SessionStarted {
            rate: params.alac.sample_rate,
            channels: params.alac.channels,
            peer: self.peer,
        }
    }

    /// What the host is told when a stream is set up: that the session before it
    /// ended, if one was running, that this one started, and what was kept for
    /// it.
    pub open spec fn start_events(self, params: StreamParams) -> Seq<EventContent> {
        self.end_events() + seq![self.start_event(params)] + if_any(self.pending_metadata) + if_any(
            self.pending_artwork,
        )
    }

    /// What the host is told of a FLUSH at once: nothing where a stream runs, as
    /// it is still to be flushed.
    pub open spec fn flush_events(self) -> Seq<EventContent> {
        if self.streaming {
            Seq::empty()
        } else {
            seq![EventContent::Flushed]
        }
    }

    /// The session after a FLUSH.
    pub open spec fn after_flush(self) -> SessionState {
        if self.streaming {
            SessionState { owed: self.owed + 1, ..self }
        } else {
            self
        }
    }

    /// What the host is told of what the stream's player reports: that a flush
    /// which is owed is done, and positions while a stream runs.
    pub open spec fn relayed(self, report: EventContent) -> Seq<EventContent> {
        match report {
            EventContent::Flushed => if self.owed > 0 {
                seq![report]
            } else {
                Seq::empty()
            },
            EventContent::Progress { .. } => if self.streaming {
                seq![report]
            } else {
                Seq::empty()
            },
            _ => Seq::empty(),
        }
    }

    /// The session after such a report.
    pub open spec fn after_relay(self, report: EventContent) -> SessionState {
        if report is Flushed && self.owed > 0 {
            SessionState { owed: (self.owed - 1) as nat, ..self }
        } else {
            self
        }
    }

    /// The session once its stream is torn down.
    pub open spec fn ended(self) -> SessionState {
        SessionState { streaming: false, holds_slot: false, owed: 0, ..self }
    }

    /// What the host is told then, if the session was running: of every flush
    /// that it has not been told of, as nothing is left of the stream, and that
    /// the session ended.
    pub open spec fn end_events(self) -> Seq<EventContent> {
        if self.streaming {
            flushed_times(self.owed).push(EventContent::SessionEnded)
        } else {
            Seq::empty()
        }
    }
}

/// Whether the texts of a SET_PARAMETER read as what they encode, where they are
/// valid UTF-8.
pub open spec fn parameter_reads_exactly(content_type: Option<Seq<char>>, body: Seq<u8>) -> bool {
    if content_type is Some && is_dmap(media_type(content_type->0)) {
        dmap::track_fields(body) matches Some(fields) ==> dmap::reads_exactly(fields)
    } else if content_type is Some && is_image(media_type(content_type->0)) {
        true
    } else {
        utf8::reads_exactly(body)
    }
}

fn content_of(content_type: &Vec<char>) -> (media: String)
    ensures
        media@ == media_type(content_type@),
{
    let all = content_type.as_slice();
    let at: usize = find(all, ';');
    let before = vstd::slice::slice_subrange(all, 0, at);
    assert(before@ =~= content_type@.take(at as int));
    string_of(trim(before))
}

impl Session {
    /// The representation is sound.
    pub closed spec fn wf(&self) -> bool {
        &&& self@.wf()
        &&& events::told(self.owed@) == flushed_times(self.owed@.len())
    }

    /// What a sound representation stands for is sound.
    pub proof fn lemma_wf(&self)
        requires
            self.wf(),
        ensures
            self@.wf(),
    {
    }

    /// A session with the client at `peer`.
    pub fn new(peer: String) -> (session: Session)
        ensures
            session.wf(),
            session@ == (SessionState {
                params: None,
                streaming: false,
                pending_metadata: None,
                pending_artwork: None,
                peer: peer@,
                holds_slot: false,
                track: None,
                owed: 0,
            }),
    {
        let owed: Vec<Event> = Vec::new();
        assert(events::told(owed@) =~= flushed_times(0));
        Session {
            params: None,
            streaming: false,
            pending_metadata: None,
            pending_artwork: None,
            peer,
            holds_slot: false,
            track: None,
            owed,
        }
    }

    /// Whether a stream is set up and not torn down.
    pub fn is_streaming(&self) -> (streaming: bool)
        ensures
            streaming == self@.streaming,
    {
        self.streaming
    }

    /// Where the sender last said that the track starts and ends.
    pub fn track(&self) -> (track: Option<Track>)
        ensures
            track == self@.track,
    {
        self.track
    }

    /// Handle ANNOUNCE: parse the SDP, decrypt the session key, and keep the
    /// format and crypto parameters.
    pub fn handle_announce(&mut self, request: &Request, key_pem: &str) -> (response: Response)
        requires
            old(self).wf(),
        ensures
            final(self).wf(),
            response@ == announce_status(
                text::lines_of(utf8::utf8_lossy(request.body@)),
                key_pem@,
            ),
            response@.status == 200 ==> {
                &&& final(self)@.params is Some
                &&& is_announced(
                    final(self)@.params->0,
                    text::lines_of(utf8::utf8_lossy(request.body@)),
                    key_pem@,
                )
                &&& final(self)@ == (SessionState {
                    params: final(self)@.params,
                    ..old(self)@
                })
            },
            response@.status != 200 ==> final(self)@ == old(self)@,
            utf8::reads_exactly(request.body@),
    {
        let body = from_utf8_lossy(request.body.as_slice());
        self.announce(body.as_str(), key_pem)
    }

    /// Handle the SDP body of an ANNOUNCE.
    pub fn announce(&mut self, body: &str, key_pem: &str) -> (response: Response)
        requires
            old(self).wf(),
        ensures
            final(self).wf(),
            response@ == announce_status(text::lines_of(body@), key_pem@),
            response@.status == 200 ==> {
                &&& final(self)@.params is Some
                &&& is_announced(final(self)@.params->0, text::lines_of(body@), key_pem@)
                &&& final(self)@ == (SessionState {
                    params: final(self)@.params,
                    ..old(self)@
                })
            },
            response@.status != 200 ==> final(self)@ == old(self)@,
    {
        let sdp = Sdp::parse(body);
        let alac = match &sdp.fmtp {
            Some(fmtp) => AlacConfig::parse(fmtp.as_str()),
            None => None,
        };
        let alac: AlacConfig = match alac {
            Some(alac) => alac,
            None => {
                return Response::new(400, "Bad Request");
            },
        };
        let params = match (&sdp.rsaaeskey, &sdp.aesiv) {
            (None, None) => StreamParams { encrypted: false, key: [0; 16], iv: [0; 16], alac },
            (Some(rsaaeskey), Some(aesiv)) => {
                match decrypt_stream_key(rsaaeskey.as_str(), aesiv.as_str(), key_pem) {
                    Ok((key, iv)) => StreamParams { encrypted: true, key, iv, alac },
                    Err(_) => {
                        return Response::new(456, "Header Field Not Valid for Resource");
                    },
                }
            },
            _ => {
                return Response::new(456, "Header Field Not Valid for Resource");
            },
        };
        self.params = Some(params);
        Response::ok()
    }

    /// The first half of SETUP: whether it is in order, and the slot. The error
    /// is the response. A session takes the slot once, and keeps it even where
    /// the rest of the SETUP is refused.
    pub fn begin_setup(&mut self, request: &Request, slot: &mut SessionSlot) -> (plan: Result<
        SetupPlan,
        Response,
    >)
        requires
            old(self).wf(),
        ensures
            final(self).wf(),
            plan is Ok <==> old(self)@.params is Some && (old(self)@.holds_slot || !old(slot)@)
                && setup_ports(request@) is Some,
            plan matches Ok(p) ==> {
                &&& p.params == old(self)@.params->0
                &&& p.control_port == (setup_ports(request@)->0).0
                &&& p.timing_port == (setup_ports(request@)->0).1
            },
            plan matches Err(response) ==> response@ == (if old(self)@.params is None {
                wrong_state()
            } else if !old(self)@.holds_slot && old(slot)@ {
                refused()
            } else {
                bad_request()
            }),
            if old(self)@.params is None || (!old(self)@.holds_slot && old(slot)@) {
                final(self)@ == old(self)@ && final(slot)@ == old(slot)@
            } else {
                final(self)@ == (SessionState { holds_slot: true, ..old(self)@ }) && final(slot)@
                    == (old(slot)@ || !old(self)@.holds_slot)
            },
    {
        let params: StreamParams = match self.params {
            Some(params) => params,
            None => {
                return Err(Response::new(455, "Method Not Valid in This State"));
            },
        };
        if !self.holds_slot {
            if slot.try_acquire() {
                self.holds_slot = true;
            } else {
                return Err(Response::new(453, "Not Enough Bandwidth"));
            }
        }
        let transport = match request.headers.get("Transport") {
            Some(transport) => transport,
            None => {
                return Err(Response::new(400, "Bad Request"));
            },
        };
        match (
            transport_param(transport, "control_port"),
            transport_param(transport, "timing_port"),
        ) {
            (Some(control_port), Some(timing_port)) => Ok(
                SetupPlan { control_port, timing_port, params },
            ),
            _ => Err(Response::new(400, "Bad Request")),
        }
    }

    /// The second half of SETUP, once the host has bound its three UDP sockets
    /// (or could not): the session starts, and the host is told so, and what
    /// was kept for it. One that was running ends first. The response reports
    /// the ports.
    pub fn finish_setup(&mut self, plan: &SetupPlan, bound: Option<BoundPorts>) -> (outcome: (
        Response,
        Vec<Event>,
    ))
        requires
            old(self).wf(),
            old(self)@.holds_slot,
        ensures
            final(self).wf(),
            outcome.0@ == setup_response(bound),
            match bound {
                None => {
                    &&& events::told(outcome.1@) == Seq::<EventContent>::empty()
                    &&& final(self)@ == old(self)@
                },
                Some(_) => {
                    &&& events::told(outcome.1@) == old(self)@.start_events(plan.params)
                    &&& final(self)@ == old(self)@.started()
                },
            },
    {
        let mut events: Vec<Event> = Vec::new();
        let ports = match bound {
            Some(ports) => ports,
            None => {
                assert(events::told(events@) =~= Seq::<EventContent>::empty());
                return (Response::new(500, "Internal Server Error"), events);
            },
        };
        if self.streaming {
            core::mem::swap(&mut events, &mut self.owed);
            events.push(Event::SessionEnded);
            assert(events::told(events@) =~= old(self)@.end_events());
        }
        assert(events::told(self.owed@) =~= flushed_times(0));
        events.push(
            Event::SessionStarted {
                rate: plan.params.alac.sample_rate,
                channels: plan.params.alac.channels,
                peer: self.peer.clone(),
            },
        );
        self.streaming = true;
        self.track = None;
        if let Some(event) = self.pending_metadata.take() {
            events.push(event);
        }
        if let Some(event) = self.pending_artwork.take() {
            events.push(event);
        }
        assert(events::told(events@) =~= old(self)@.start_events(plan.params));
        let mut transport =
            "RTP/AVP/UDP;unicast;interleaved=0-1;mode=record;control_port=".to_owned();
        push_decimal(&mut transport, ports.control as u64);
        transport.append(";timing_port=");
        push_decimal(&mut transport, ports.timing as u64);
        transport.append(";server_port=");
        push_decimal(&mut transport, ports.audio as u64);
        let response = Response::ok().header("Transport", transport.as_str()).header(
            "Session",
            "1",
        );
        (response, events)
    }

    /// Handle RECORD: streaming starts. Report the minimum latency.
    pub fn handle_record(&mut self, request: &Request) -> (response: Response)
        requires
            old(self).wf(),
        ensures
            final(self).wf(),
            final(self)@ == old(self)@,
            response@ == ResponseContent::status_only(200, "OK"@).with("Audio-Latency"@, "11025"@),
    {
        Response::ok().header("Audio-Latency", "11025")
    }

    /// Handle FLUSH, TEARDOWN, SET_PARAMETER and GET_PARAMETER; `None` for
    /// methods that a session does not own.
    pub fn handle_other(&mut self, request: &Request, slot: &mut SessionSlot) -> (outcome: Option<
        Outcome,
    >)
        requires
            old(self).wf(),
        ensures
            final(self).wf(),
            outcome is Some <==> request.method@ == "TEARDOWN"@ || request.method@ == "FLUSH"@
                || request.method@ == "SET_PARAMETER"@ || request.method@ == "GET_PARAMETER"@,
            outcome matches Some(o) ==> o.response@ == ResponseContent::status_only(200, "OK"@),
            request.method@ == "TEARDOWN"@ ==> {
                &&& outcome->0.effect == Effect::Stop
                &&& events::told(outcome->0.events@) == old(self)@.end_events()
                &&& final(self)@ == old(self)@.ended()
                &&& final(slot)@ == (old(slot)@ && !old(self)@.holds_slot)
            },
            request.method@ != "TEARDOWN"@ ==> final(slot)@ == old(slot)@,
            request.method@ == "FLUSH"@ ==> {
                &&& outcome->0.effect == flush_effect(old(self)@.streaming, request@)
                &&& events::told(outcome->0.events@) == old(self)@.flush_events()
                &&& final(self)@ == old(self)@.after_flush()
            },
            request.method@ == "SET_PARAMETER"@ ==> {
                let content_type = rtsp::header_value(request.headers@, "Content-Type"@);
                &&& outcome->0.effect == Effect::Nothing
                &&& events::told(outcome->0.events@) == old(self)@.parameter_events(
                    content_type,
                    request.body@,
                )
                &&& final(self)@ == old(self)@.after_parameter(content_type, request.body@)
                &&& parameter_reads_exactly(content_type, request.body@)
            },
            request.method@ == "GET_PARAMETER"@ ==> {
                &&& outcome->0.effect == Effect::Nothing
                &&& events::told(outcome->0.events@) == Seq::<EventContent>::empty()
                &&& final(self)@ == old(self)@
            },
            outcome is None ==> final(self)@ == old(self)@,
    {
        proof {
            reveal_strlit("TEARDOWN");
            reveal_strlit("FLUSH");
            reveal_strlit("SET_PARAMETER");
            reveal_strlit("GET_PARAMETER");
            assert("TEARDOWN"@.len() == 8 && "FLUSH"@.len() == 5 && "SET_PARAMETER"@.len() == 13
                && "GET_PARAMETER"@.len() == 13);
            assert("SET_PARAMETER"@[0] != "GET_PARAMETER"@[0]);
        }
        let method = request.method.as_str();
        if same(method, "TEARDOWN") {
            let events = self.close(slot);
            Some(Outcome { response: Response::ok(), events, effect: Effect::Stop })
        } else if same(method, "FLUSH") {
            let to: Option<u16> = match request.headers.get("RTP-Info") {
                Some(info) => transport_param(info, "seq"),
                None => None,
            };
            let mut events: Vec<Event> = Vec::new();
            let effect = if self.streaming {
                let ghost before = self.owed@;
                self.owed.push(Event::Flushed);
                assert(events::told(self.owed@) =~= events::told(before).push(
                    EventContent::Flushed,
                ));
                assert(events::told(self.owed@) =~= flushed_times(self.owed@.len()));
                Effect::Flush(to)
            } else {
                events.push(Event::Flushed);
                Effect::Nothing
            };
            assert(events::told(events@) =~= old(self)@.flush_events());
            Some(Outcome { response: Response::ok(), events, effect })
        } else if same(method, "SET_PARAMETER") {
            let events = self.set_parameter(
                request.headers.get("Content-Type"),
                request.body.as_slice(),
            );
            Some(Outcome { response: Response::ok(), events, effect: Effect::Nothing })
        } else if same(method, "GET_PARAMETER") {
            let events: Vec<Event> = Vec::new();
            assert(events::told(events@) =~= Seq::<EventContent>::empty());
            Some(Outcome { response: Response::ok(), events, effect: Effect::Nothing })
        } else {
            None
        }
    }

    /// End the session, because of TEARDOWN or because the connection closed:
    /// the slot is free again, and the host is told of every flush that it has
    /// not been told of, and once that a running session ended. It is told so
    /// when the stream is gone.
    pub fn close(&mut self, slot: &mut SessionSlot) -> (events: Vec<Event>)
        requires
            old(self).wf(),
        ensures
            final(self).wf(),
            events::told(events@) == old(self)@.end_events(),
            final(self)@ == old(self)@.ended(),
            final(slot)@ == (old(slot)@ && !old(self)@.holds_slot),
    {
        if self.holds_slot {
            slot.release();
            self.holds_slot = false;
        }
        let mut events: Vec<Event> = Vec::new();
        if self.streaming {
            self.streaming = false;
            core::mem::swap(&mut events, &mut self.owed);
            events.push(Event::SessionEnded);
        }
        assert(events::told(self.owed@) =~= flushed_times(0));
        assert(events::told(events@) =~= old(self)@.end_events());
        events
    }

    /// Take a report of the stream's player: what to tell the host of it. That
    /// a flush is done is told once for each FLUSH; a report of a stream that is
    /// gone is not told.
    pub fn relay(&mut self, report: Event) -> (out: Vec<Event>)
        requires
            old(self).wf(),
        ensures
            final(self).wf(),
            events::told(out@) == old(self)@.relayed(report@),
            final(self)@ == old(self)@.after_relay(report@),
    {
        let mut out: Vec<Event> = Vec::new();
        let ghost content = report@;
        let ghost before = self.owed@;
        match &report {
            Event::Flushed => {
                if let Some(event) = self.owed.pop() {
                    proof {
                        assert(events::told(before)[before.len() - 1] == event@);
                        assert(event@ is Flushed);
                    }
                    out.push(event);
                }
                assert(events::told(self.owed@) =~= flushed_times(self.owed@.len())) by {
                    assert forall|i: int| 0 <= i < self.owed@.len() implies events::told(
                        self.owed@,
                    )[i] == EventContent::Flushed by {
                        assert(events::told(before)[i] == before[i]@);
                    }
                }
            },
            Event::Progress { .. } => {
                if self.streaming {
                    out.push(report);
                }
            },
            _ => {},
        }
        assert(events::told(out@) =~= old(self)@.relayed(content));
        out
    }

    /// Apply a `SET_PARAMETER` body, dispatched on its `Content-Type`: DMAP
    /// track metadata, cover art, or (the default) `text/parameters` lines.
    pub fn set_parameter(&mut self, content_type: Option<&str>, body: &[u8]) -> (events: Vec<Event>)
        requires
            old(self).wf(),
        ensures
            final(self).wf(),
            events::told(events@) == old(self)@.parameter_events(
                match content_type {
                    Some(ct) => Some(ct@),
                    None => None,
                },
                body@,
            ),
            final(self)@ == old(self)@.after_parameter(
                match content_type {
                    Some(ct) => Some(ct@),
                    None => None,
                },
                body@,
            ),
            parameter_reads_exactly(
                match content_type {
                    Some(ct) => Some(ct@),
                    None => None,
                },
                body@,
            ),
    {
        if let Some(ct) = content_type {
            let media = content_of(&chars_of(ct));
            let chars = chars_of(media.as_str());
            if eq_ignoring_case(chars.as_slice(), chars_of("application/x-dmap-tagged").as_slice()) {
                return self.set_metadata(body);
            }
            if chars.len() >= 6 {
                let kind = vstd::slice::slice_subrange(chars.as_slice(), 0, 6);
                assert(kind@ =~= chars@.take(6));
                if eq_ignoring_case(kind, chars_of("image/").as_slice()) {
                    return self.set_artwork(media, body);
                }
            }
        }
        let text = from_utf8_lossy(body);
        self.set_text_parameters(text.as_str())
    }

    /// The `text/parameters` flavor: the volume line and the playback position.
    pub fn set_text_parameters(&mut self, body: &str) -> (out: Vec<Event>)
        requires
            old(self).wf(),
        ensures
            final(self).wf(),
            events::told(out@) == old(self)@.line_events(text::lines_of(body@)),
            final(self)@ == (SessionState {
                track: old(self)@.line_track(text::lines_of(body@)),
                ..old(self)@
            }),
    {
        let chars = chars_of(body);
        let all = lines(chars.as_slice());
        let ghost contents = text::contents(all@);
        let ghost start = self@;
        let volume = chars_of("volume:");
        let progress = chars_of("progress:");
        let mut out: Vec<Event> = Vec::new();
        let mut i: usize = 0;
        assert(events::told(out@) =~= start.line_events(contents.take(0)));
        while i < all.len()
            invariant
                i <= all@.len(),
                contents == text::contents(all@),
                volume@ == "volume:"@,
                progress@ == "progress:"@,
                self.wf(),
                self@ == (SessionState { track: start.line_track(contents.take(i as int)), ..start }),
                events::told(out@) == start.line_events(contents.take(i as int)),
            decreases all@.len() - i,
        {
            let line = trim(all[i]);
            let ghost told_before = events::told(out@);
            proof {
                let upto = contents.take(i + 1);
                assert(upto.drop_last() =~= contents.take(i as int));
                assert(upto.last() == all@[i as int]@);
            }
            if let Some(v) = strip_prefix(line, volume.as_slice()) {
                let db = trim(v);
                if spells_float(db) {
                    out.push(Event::Volume { db: string_of(db) });
                    assert(events::told(out@) =~= told_before.push(EventContent::Volume { db: db@ }));
                }
            } else if let Some(v) = strip_prefix(line, progress.as_slice()) {
                if let Some(event) = self.set_progress(trim(v)) {
                    out.push(event);
                    assert(events::told(out@) =~= told_before.push(event@));
                }
            }
            assert(events::told(out@) =~= start.line_events(contents.take(i + 1)));
            i += 1;
        }
        assert(contents.take(i as int) =~= contents);
        out
    }

    /// `progress: <start>/<current>/<end>`: three RTP timestamps, converted to
    /// time with the stream's sample rate; reported only while a session is
    /// running.
    fn set_progress(&mut self, value: &[char]) -> (event: Option<Event>)
        requires
            old(self).wf(),
        ensures
            final(self).wf(),
            event is Some <==> old(self)@.streaming && old(self)@.params is Some && progress_parts(
                value@,
            ) is Some,
            event matches Some(e) ==> {
                let parts = progress_parts(value@)->0;
                &&& e@ == position_event(parts, old(self)@.params->0.alac.sample_rate)
                &&& final(self)@ == (SessionState {
                    track: Some(Track { start: parts.0, end: parts.2 }),
                    ..old(self)@
                })
            },
            event is None ==> final(self)@ == old(self)@,
    {
        let params = match &self.params {
            Some(params) => params,
            None => {
                return None;
            },
        };
        if !self.streaming {
            return None;
        }
        let rate: u32 = params.alac.sample_rate;
        let parts = split(value, '/');
        let ghost contents = text::contents(parts@);
        if parts.len() != 3 {
            return None;
        }
        proof {
            assert(contents[0] == parts@[0]@);
            assert(contents[1] == parts@[1]@);
            assert(contents[2] == parts@[2]@);
        }
        match (
            parse_unsigned(trim(parts[0]), 10, u32::MAX as u64),
            parse_unsigned(trim(parts[1]), 10, u32::MAX as u64),
            parse_unsigned(trim(parts[2]), 10, u32::MAX as u64),
        ) {
            (Some(start), Some(current), Some(end)) => {
                let elapsed = frames_to_duration(
                    saturating_less(current as u32, start as u32),
                    rate,
                );
                let duration = frames_to_duration(saturating_less(end as u32, start as u32), rate);
                self.track = Some(Track { start: start as u32, end: end as u32 });
                Some(Event::Progress { elapsed, duration })
            },
            _ => None,
        }
    }

    /// DMAP track metadata. Metadata is decoration: an unparseable payload is
    /// dropped, never an error to the sender.
    fn set_metadata(&mut self, body: &[u8]) -> (out: Vec<Event>)
        requires
            old(self).wf(),
        ensures
            final(self).wf(),
            match dmap::track_fields(body@) {
                Some(fields) => events::told(out@) == old(self)@.told_of(metadata_event(fields))
                    && final(self)@ == old(self)@.after_session_event(metadata_event(fields)),
                None => events::told(out@) == Seq::<EventContent>::empty() && final(self)@ == old(
                    self,
                )@,
            },
            dmap::track_fields(body@) matches Some(fields) ==> dmap::reads_exactly(fields),
    {
        match dmap::parse(body) {
            Some(meta) => self.send_session_event(
                Event::Metadata { title: meta.title, artist: meta.artist, album: meta.album },
            ),
            None => {
                let out: Vec<Event> = Vec::new();
                assert(events::told(out@) =~= Seq::<EventContent>::empty());
                out
            },
        }
    }

    /// Cover art, forwarded as it is (`image/none` or empty means cleared).
    fn set_artwork(&mut self, content_type: String, body: &[u8]) -> (out: Vec<Event>)
        requires
            old(self).wf(),
        ensures
            final(self).wf(),
            events::told(out@) == old(self)@.told_of(
                EventContent::Artwork { content_type: content_type@, data: body@ },
            ),
            final(self)@ == old(self)@.after_session_event(
                EventContent::Artwork { content_type: content_type@, data: body@ },
            ),
    {
        self.send_session_event(
            Event::Artwork { content_type, data: vstd::slice::slice_to_vec(body) },
        )
    }

    /// Deliver an event that the host expects only inside a session; before one
    /// it is latched (the latest wins) and replayed once the session starts.
    pub fn send_session_event(&mut self, event: Event) -> (out: Vec<Event>)
        requires
            old(self).wf(),
            event is Metadata || event is Artwork,
        ensures
            final(self).wf(),
            events::told(out@) == old(self)@.told_of(event@),
            final(self)@ == old(self)@.after_session_event(event@),
    {
        let mut out: Vec<Event> = Vec::new();
        assert(events::told(out@) =~= Seq::<EventContent>::empty());
        if self.streaming {
            let ghost content = event@;
            out.push(event);
            assert(events::told(out@) =~= seq![content]);
        } else if matches!(event, Event::Artwork { .. }) {
            self.pending_artwork = Some(event);
        } else {
            self.pending_metadata = Some(event);
        }
        out
    }
}

/// What a FLUSH does to the stream: if there is one, its buffered audio goes,
/// up to the sequence number that the request gives, if any.
pub open spec fn flush_effect(streaming: bool, request: RequestContent) -> Effect {
    if streaming {
        Effect::Flush(
            match rtsp::header_value(request.headers, "RTP-Info"@) {
                Some(info) => match header_number(info, "seq"@) {
                    Some(seq) => Some(seq as u16),
                    None => None,
                },
                None => None,
            },
        )
    } else {
        Effect::Nothing
    }
}

fn saturating_less(a: u32, b: u32) -> (d: u32)
    ensures
        d == less(a, b),
{
    if a >= b {
        a - b
    } else {
        0
    }
}

/// What a SETUP tells the host is in order, and leaves a session running: one
/// that was running ends first, and nothing of the track is told before the
/// session has started.
pub proof fn law_a_setup_starts_the_session(s: SessionState, params: StreamParams)
    requires
        s.wf(),
    ensures
        s.holds_slot ==> s.started().wf(),
        events::trace(s.streaming, s.start_events(params)) == Some(true),
{
    law_a_session_ends_once(s);
    let first = seq![s.start_event(params)];
    assert(events::trace(false, first) == Some(true)) by {
        assert(first.drop_last() =~= Seq::<EventContent>::empty());
        reveal_with_fuel(events::trace, 2);
    }
    let begun = s.end_events() + first;
    events::law_traces_compose(s.streaming, s.end_events(), false, first);
    lemma_one_event(true, if_any(s.pending_metadata));
    lemma_one_event(true, if_any(s.pending_artwork));
    events::law_traces_compose(s.streaming, begun, true, if_any(s.pending_metadata));
    events::law_traces_compose(
        s.streaming,
        begun + if_any(s.pending_metadata),
        true,
        if_any(s.pending_artwork),
    );
}

proof fn lemma_one_event(streaming: bool, run: Seq<EventContent>)
    requires
        run.len() <= 1,
        run.len() == 1 ==> events::follows(streaming, run[0]) == Some(streaming),
    ensures
        events::trace(streaming, run) == Some(streaming),
{
    if run.len() == 1 {
        assert(run.drop_last() =~= Seq::<EventContent>::empty());
        reveal_with_fuel(events::trace, 2);
    }
}

proof fn lemma_line_events(s: SessionState, lines: Seq<Seq<char>>)
    ensures
        events::trace(s.streaming, s.line_events(lines)) == Some(s.streaming),
    decreases lines.len(),
{
    if lines.len() > 0 {
        lemma_line_events(s, lines.drop_last());
        lemma_one_event(s.streaming, if_any(s.line_event(lines.last())));
        events::law_traces_compose(
            s.streaming,
            s.line_events(lines.drop_last()),
            s.streaming,
            if_any(s.line_event(lines.last())),
        );
    }
}

/// Whatever a sender sets, and however malformed, the host hears of tracks,
/// artwork and positions only inside a session, and no session starts or ends
/// by it.
pub proof fn law_parameters_keep_to_the_session(
    s: SessionState,
    content_type: Option<Seq<char>>,
    body: Seq<u8>,
)
    requires
        s.wf(),
    ensures
        s.after_parameter(content_type, body).wf(),
        s.after_parameter(content_type, body).streaming == s.streaming,
        events::trace(s.streaming, s.parameter_events(content_type, body)) == Some(s.streaming),
{
    if content_type is Some && is_dmap(media_type(content_type->0)) {
        if let Some(fields) = dmap::track_fields(body) {
            lemma_one_event(s.streaming, s.told_of(metadata_event(fields)));
        } else {
            lemma_one_event(s.streaming, Seq::empty());
        }
    } else if content_type is Some && is_image(media_type(content_type->0)) {
        lemma_one_event(
            s.streaming,
            s.told_of(
                EventContent::Artwork { content_type: media_type(content_type->0), data: body },
            ),
        );
    } else {
        lemma_line_events(s, text::lines_of(utf8::utf8_lossy(body)));
    }
}

/// A session ends once: what ending it tells the host is in order, and ending
/// it again tells nothing.
pub proof fn law_a_session_ends_once(s: SessionState)
    requires
        s.wf(),
    ensures
        s.ended().wf(),
        events::trace(s.streaming, s.end_events()) == Some(false),
        s.ended().end_events() == Seq::<EventContent>::empty(),
{
    if s.streaming {
        assert(s.end_events().drop_last() =~= flushed_times(s.owed));
        lemma_flushed_times(true, s.owed);
    }
}

proof fn lemma_flushed_times(streaming: bool, n: nat)
    ensures
        events::trace(streaming, flushed_times(n)) == Some(streaming),
        events::flushes(flushed_times(n)) == n,
    decreases n,
{
    if n > 0 {
        lemma_flushed_times(streaming, (n - 1) as nat);
        assert(flushed_times(n).drop_last() =~= flushed_times((n - 1) as nat));
    }
}

/// Metadata that a sender pushes before SETUP is not lost and not early: the
/// latest of it is told right after the session starts.
pub proof fn law_early_metadata_arrives_inside_the_session(
    s: SessionState,
    content_type: Seq<char>,
    earlier: Seq<u8>,
    body: Seq<u8>,
    params: StreamParams,
)
    requires
        s.wf(),
        !s.streaming,
        is_dmap(media_type(content_type)),
        dmap::track_fields(body) is Some,
    ensures
        s.parameter_events(Some(content_type), body) == Seq::<EventContent>::empty(),
        s.after_parameter(Some(content_type), earlier).after_parameter(
            Some(content_type),
            body,
        ).start_events(params) == seq![
            s.start_event(params),
            metadata_event(dmap::track_fields(body)->0),
        ] + if_any(s.pending_artwork),
{
    let after = s.after_parameter(Some(content_type), earlier).after_parameter(
        Some(content_type),
        body,
    );
    assert(after.start_events(params) =~= seq![
        s.start_event(params),
        metadata_event(dmap::track_fields(body)->0),
    ] + if_any(s.pending_artwork));
}

/// Artwork that a sender pushes before SETUP is not lost and not early either:
/// the latest of it is told after the session starts and after the metadata.
pub proof fn law_early_artwork_arrives_inside_the_session(
    s: SessionState,
    content_type: Seq<char>,
    earlier: Seq<u8>,
    body: Seq<u8>,
    params: StreamParams,
)
    requires
        s.wf(),
        !s.streaming,
        is_image(media_type(content_type)),
        !is_dmap(media_type(content_type)),
    ensures
        s.parameter_events(Some(content_type), body) == Seq::<EventContent>::empty(),
        s.after_parameter(Some(content_type), earlier).after_parameter(
            Some(content_type),
            body,
        ).start_events(params) == seq![s.start_event(params)] + if_any(s.pending_metadata) + seq![
            EventContent::Artwork { content_type: media_type(content_type), data: body },
        ],
{
    let after = s.after_parameter(Some(content_type), earlier).after_parameter(
        Some(content_type),
        body,
    );
    assert(after.start_events(params) =~= seq![s.start_event(params)] + if_any(
        s.pending_metadata,
    ) + seq![EventContent::Artwork { content_type: media_type(content_type), data: body }]);
}

impl SessionState {
    /// The session after some events that the host expects only inside one.
    pub open spec fn after_session_events(self, track: Seq<EventContent>) -> SessionState
        decreases track.len(),
    {
        if track.len() == 0 {
            self
        } else {
            self.after_session_events(track.drop_last()).after_session_event(track.last())
        }
    }
}

/// The latest artwork among some events, or what there was before.
pub open spec fn latest_artwork(
    before: Option<EventContent>,
    track: Seq<EventContent>,
) -> Option<EventContent>
    decreases track.len(),
{
    if track.len() == 0 {
        before
    } else if track.last() is Artwork {
        Some(track.last())
    } else {
        latest_artwork(before, track.drop_last())
    }
}

/// The latest metadata among some events, or what there was before.
pub open spec fn latest_metadata(
    before: Option<EventContent>,
    track: Seq<EventContent>,
) -> Option<EventContent>
    decreases track.len(),
{
    if track.len() == 0 {
        before
    } else if track.last() is Metadata {
        Some(track.last())
    } else {
        latest_metadata(before, track.drop_last())
    }
}

/// Of all the metadata and artwork that comes before a session, in whatever
/// order and number, nothing is told then; the start of the session tells the
/// latest of each, once, right after it, and the next start tells neither again.
pub proof fn law_the_latest_track_is_told_once(
    s: SessionState,
    track: Seq<EventContent>,
    params: StreamParams,
    later: StreamParams,
)
    requires
        s.wf(),
        !s.streaming,
        forall|i: int|
            0 <= i < track.len() ==> #[trigger] track[i] is Metadata || track[i] is Artwork,
    ensures
        !s.after_session_events(track).streaming,
        forall|event: EventContent| #[trigger]
            s.after_session_events(track).told_of(event) == Seq::<EventContent>::empty(),
        s.after_session_events(track).start_events(params) == seq![s.start_event(params)] + if_any(
            latest_metadata(s.pending_metadata, track),
        ) + if_any(latest_artwork(s.pending_artwork, track)),
        s.after_session_events(track).started().ended().start_events(later) == seq![
            s.start_event(later),
        ],
{
    lemma_latched(s, track);
    let after = s.after_session_events(track);
    assert(after.start_events(params) =~= seq![s.start_event(params)] + if_any(
        latest_metadata(s.pending_metadata, track),
    ) + if_any(latest_artwork(s.pending_artwork, track)));
    assert(after.started().ended().start_events(later) =~= seq![s.start_event(later)]);
}

proof fn lemma_latched(s: SessionState, track: Seq<EventContent>)
    requires
        !s.streaming,
        forall|i: int|
            0 <= i < track.len() ==> #[trigger] track[i] is Metadata || track[i] is Artwork,
    ensures
        s.after_session_events(track) == (SessionState {
            pending_metadata: latest_metadata(s.pending_metadata, track),
            pending_artwork: latest_artwork(s.pending_artwork, track),
            ..s
        }),
    decreases track.len(),
{
    if track.len() > 0 {
        let before = track.drop_last();
        assert forall|i: int| 0 <= i < before.len() implies #[trigger] before[i] is Metadata
            || before[i] is Artwork by {
            assert(before[i] == track[i]);
        }
        lemma_latched(s, before);
        assert(track.last() == track[track.len() - 1]);
    }
}

/// What happens to a session.
pub enum SessionInput {
    /// A stream is announced.
    Announced(StreamParams),
    /// A SETUP takes the slot.
    Reserved,
    /// A stream is set up.
    SetUp(StreamParams),
    /// A SET_PARAMETER.
    Parameter { content_type: Option<Seq<char>>, body: Seq<u8> },
    /// A FLUSH.
    Flush,
    /// A report of the stream's player.
    Report(EventContent),
    /// A TEARDOWN, or the connection closed.
    Ended,
}

impl SessionState {
    /// Whether it can happen: a stream is set up only with the slot.
    pub open spec fn can_take(self, input: SessionInput) -> bool {
        input is SetUp ==> self.holds_slot
    }

    /// What the host is told of it.
    pub open spec fn told_for(self, input: SessionInput) -> Seq<EventContent> {
        match input {
            SessionInput::Announced(_) | SessionInput::Reserved => Seq::empty(),
            SessionInput::SetUp(params) => self.start_events(params),
            SessionInput::Parameter { content_type, body } => self.parameter_events(content_type, body),
            SessionInput::Flush => self.flush_events(),
            SessionInput::Report(report) => self.relayed(report),
            SessionInput::Ended => self.end_events(),
        }
    }

    /// The session after it.
    pub open spec fn after(self, input: SessionInput) -> SessionState {
        match input {
            SessionInput::Announced(params) => SessionState { params: Some(params), ..self },
            SessionInput::Reserved => SessionState { holds_slot: true, ..self },
            SessionInput::SetUp(_) => self.started(),
            SessionInput::Parameter { content_type, body } => self.after_parameter(content_type, body),
            SessionInput::Flush => self.after_flush(),
            SessionInput::Report(report) => self.after_relay(report),
            SessionInput::Ended => self.ended(),
        }
    }

    /// The session after all that happened to it.
    pub open spec fn after_all(self, life: Seq<SessionInput>) -> SessionState
        decreases life.len(),
    {
        if life.len() == 0 {
            self
        } else {
            self.after_all(life.drop_last()).after(life.last())
        }
    }

    /// All that the host is told of it.
    pub open spec fn told_all(self, life: Seq<SessionInput>) -> Seq<EventContent>
        decreases life.len(),
    {
        if life.len() == 0 {
            Seq::empty()
        } else {
            self.told_all(life.drop_last()) + self.after_all(life.drop_last()).told_for(life.last())
        }
    }

    /// Whether all of it can happen, one after another.
    pub open spec fn can_take_all(self, life: Seq<SessionInput>) -> bool
        decreases life.len(),
    {
        life.len() > 0 ==> {
            &&& self.can_take_all(life.drop_last())
            &&& self.after_all(life.drop_last()).can_take(life.last())
        }
    }
}

/// How many FLUSH requests there were.
pub open spec fn flushes_asked(life: Seq<SessionInput>) -> nat
    decreases life.len(),
{
    if life.len() == 0 {
        0
    } else {
        flushes_asked(life.drop_last()) + if life.last() is Flush {
            1nat
        } else {
            0
        }
    }
}

proof fn lemma_no_flush(run: Seq<EventContent>)
    requires
        forall|i: int| 0 <= i < run.len() ==> #[trigger] run[i] !is Flushed,
    ensures
        events::flushes(run) == 0,
    decreases run.len(),
{
    if run.len() > 0 {
        let before = run.drop_last();
        assert forall|i: int| 0 <= i < before.len() implies #[trigger] before[i] !is Flushed by {
            assert(before[i] == run[i]);
        }
        lemma_no_flush(before);
        assert(run.last() == run[run.len() - 1]);
    }
}

proof fn lemma_lines_tell_no_flush(s: SessionState, lines: Seq<Seq<char>>)
    ensures
        events::flushes(s.line_events(lines)) == 0,
    decreases lines.len(),
{
    if lines.len() > 0 {
        lemma_lines_tell_no_flush(s, lines.drop_last());
        lemma_no_flush(if_any(s.line_event(lines.last())));
        events::lemma_flushes_add(
            s.line_events(lines.drop_last()),
            if_any(s.line_event(lines.last())),
        );
    }
}

/// One thing that happens keeps a session sound, tells the host what is in
/// order, and accounts for every flush.
proof fn lemma_life_step(s: SessionState, input: SessionInput)
    requires
        s.wf(),
        s.can_take(input),
    ensures
        s.after(input).wf(),
        events::trace(s.streaming, s.told_for(input)) == Some(s.after(input).streaming),
        events::flushes(s.told_for(input)) + s.after(input).owed == s.owed + if input is Flush {
            1int
        } else {
            0
        },
{
    let told = s.told_for(input);
    match input {
        SessionInput::Announced(_) | SessionInput::Reserved => {},
        SessionInput::SetUp(params) => {
            law_a_setup_starts_the_session(s, params);
            lemma_end_tells_the_flushes(s);
            let rest = seq![s.start_event(params)] + if_any(s.pending_metadata) + if_any(
                s.pending_artwork,
            );
            assert(told =~= s.end_events() + rest);
            lemma_no_flush(rest);
            events::lemma_flushes_add(s.end_events(), rest);
        },
        SessionInput::Parameter { content_type, body } => {
            law_parameters_keep_to_the_session(s, content_type, body);
            if content_type is Some && (is_dmap(media_type(content_type->0)) || is_image(
                media_type(content_type->0),
            )) {
                lemma_no_flush(told);
            } else {
                lemma_lines_tell_no_flush(s, text::lines_of(utf8::utf8_lossy(body)));
            }
        },
        SessionInput::Flush => {
            lemma_one_event(s.streaming, told);
            lemma_one_flush(told);
        },
        SessionInput::Report(report) => {
            lemma_one_event(s.streaming, told);
            lemma_one_flush(told);
        },
        SessionInput::Ended => {
            law_a_session_ends_once(s);
            lemma_end_tells_the_flushes(s);
        },
    }
}

proof fn lemma_one_flush(run: Seq<EventContent>)
    requires
        run.len() <= 1,
    ensures
        events::flushes(run) == if run.len() == 1 && run[0] is Flushed {
            1int
        } else {
            0
        },
{
    if run.len() == 1 {
        assert(run.drop_last() =~= Seq::<EventContent>::empty());
        reveal_with_fuel(events::flushes, 2);
    }
}

proof fn lemma_end_tells_the_flushes(s: SessionState)
    requires
        s.wf(),
    ensures
        events::flushes(s.end_events()) == s.owed,
{
    if s.streaming {
        lemma_flushed_times(true, s.owed);
        assert(s.end_events().drop_last() =~= flushed_times(s.owed));
    }
}

/// Over the whole life of a session, whatever happens in it, the host hears of
/// as many ends as of starts, each end after its own start and before the next
/// start, but for the end of a session that still runs; once it is closed, the
/// numbers are the same.
pub proof fn law_every_start_has_its_end(s: SessionState, life: Seq<SessionInput>)
    requires
        s.wf(),
        !s.streaming,
        s.can_take_all(life),
    ensures
        s.after_all(life).wf(),
        events::trace(false, s.told_all(life)) == Some(s.after_all(life).streaming),
        s.after_all(life).streaming ==> events::starts(s.told_all(life)) == events::ends(
            s.told_all(life),
        ) + 1,
        !s.after_all(life).streaming ==> events::starts(s.told_all(life)) == events::ends(
            s.told_all(life),
        ),
    decreases life.len(),
{
    if life.len() > 0 {
        law_every_start_has_its_end(s, life.drop_last());
        let before = s.after_all(life.drop_last());
        lemma_life_step(before, life.last());
        events::law_traces_compose(
            false,
            s.told_all(life.drop_last()),
            before.streaming,
            before.told_for(life.last()),
        );
    }
    events::law_starts_and_ends_match(s.told_all(life), s.after_all(life).streaming);
}

/// Over the whole life of a session, whatever happens in it, every metadata,
/// artwork and position that the host hears of lies between the start of a
/// session and its end.
pub proof fn law_the_track_is_told_inside_a_session(
    s: SessionState,
    life: Seq<SessionInput>,
    i: int,
)
    requires
        s.wf(),
        !s.streaming,
        s.can_take_all(life),
        0 <= i < s.told_all(life).len(),
        s.told_all(life)[i] is Metadata || s.told_all(life)[i] is Artwork || s.told_all(
            life,
        )[i] is Progress,
    ensures
        events::trace(false, s.told_all(life).take(i)) == Some(true),
        events::starts(s.told_all(life).take(i)) == events::ends(s.told_all(life).take(i)) + 1,
{
    law_every_start_has_its_end(s, life);
    events::law_tracks_lie_inside_sessions(s.told_all(life), i);
}

/// Over the whole life of a session, whatever happens in it, the host is told
/// of every FLUSH once: at once where no stream runs, when the player reports
/// that it is done, or when the stream ends before that. What it has not been
/// told of is owed, and nothing is once the session is closed.
pub proof fn law_every_flush_is_told_once(s: SessionState, life: Seq<SessionInput>)
    requires
        s.wf(),
        s.can_take_all(life),
    ensures
        s.after_all(life).wf(),
        events::flushes(s.told_all(life)) + s.after_all(life).owed == s.owed + flushes_asked(life),
        !s.after_all(life).streaming ==> events::flushes(s.told_all(life)) == s.owed
            + flushes_asked(life),
    decreases life.len(),
{
    if life.len() > 0 {
        law_every_flush_is_told_once(s, life.drop_last());
        let before = s.after_all(life.drop_last());
        lemma_life_step(before, life.last());
        events::lemma_flushes_add(
            s.told_all(life.drop_last()),
            before.told_for(life.last()),
        );
    }
}

/// At most one of the sessions holds the slot, and it is held only by one of
/// them.
pub open spec fn exclusive(held: bool, holders: Seq<bool>) -> bool {
    &&& held <==> exists|i: int| 0 <= i < holders.len() && #[trigger] holders[i]
    &&& forall|i: int, j: int|
        0 <= i < j < holders.len() ==> !(#[trigger] holders[i] && #[trigger] holders[j])
}

/// One sender at a time: whichever of the sessions begins a SETUP, at most one
/// holds the slot afterwards, and one that does not hold it was refused.
pub proof fn law_a_second_client_is_refused(held: bool, holders: Seq<bool>, i: int)
    requires
        exclusive(held, holders),
        0 <= i < holders.len(),
    ensures
        !(holders[i] || !held) ==> exists|j: int|
            0 <= j < holders.len() && j != i && #[trigger] holders[j],
        (holders[i] || !held) ==> exclusive(held || !holders[i], holders.update(i, true)),
{
    if holders[i] || !held {
        let after = holders.update(i, true);
        assert(after[i]);
        assert forall|a: int, b: int| 0 <= a < b < after.len() implies !(#[trigger] after[a]
            && #[trigger] after[b]) by {
            if a != i && b != i {
                assert(after[a] == holders[a] && after[b] == holders[b]);
            } else if a != i {
                assert(after[a] == holders[a]);
                if holders[a] {
                    assert(held);
                }
            } else {
                assert(after[b] == holders[b]);
                if holders[b] {
                    assert(held);
                }
            }
        }
    } else {
        let j = choose|j: int| 0 <= j < holders.len() && #[trigger] holders[j];
        assert(holders[j] && j != i);
    }
}

/// Once the session that streams has ended, the slot is free for the next; a
/// session that does not hold it leaves it alone.
pub proof fn law_an_ended_session_frees_the_slot(held: bool, holders: Seq<bool>, i: int)
    requires
        exclusive(held, holders),
        0 <= i < holders.len(),
    ensures
        exclusive(held && !holders[i], holders.update(i, false)),
        holders[i] ==> !(held && !holders[i]),
{
    let after = holders.update(i, false);
    if held && !holders[i] {
        let j = choose|j: int| 0 <= j < holders.len() && #[trigger] holders[j];
        assert(after[j]);
    } else {
        assert forall|j: int| 0 <= j < after.len() implies !#[trigger] after[j] by {
            if j != i && holders[j] {
                assert(held);
                assert(holders[i]);
                if i < j {
                    assert(!(holders[i] && holders[j]));
                } else {
                    assert(!(holders[j] && holders[i]));
                }
            }
        }
    }
    assert forall|a: int, b: int| 0 <= a < b < after.len() implies !(#[trigger] after[a]
        && #[trigger] after[b]) by {
        if a != i && b != i {
            assert(after[a] == holders[a] && after[b] == holders[b]);
        }
    }
}

/// A header of parts with semicolons between them gives the number of its first
/// part `name=n`, whatever its other parts are and whatever the blanks around it.
pub proof fn law_a_named_number_is_found(
    parts: Seq<Seq<char>>,
    k: int,
    lead: Seq<char>,
    name: Seq<char>,
    pad: Seq<char>,
    n: u16,
    tail: Seq<char>,
)
    requires
        0 <= k < parts.len(),
        parts[k] == lead + (name + "="@ + pad + number::decimal(n as nat)) + tail,
        forall|i: int| 0 <= i < lead.len() ==> #[trigger] lead[i] == ' ',
        forall|i: int| 0 <= i < pad.len() ==> #[trigger] pad[i] == ' ',
        forall|i: int| 0 <= i < tail.len() ==> #[trigger] tail[i] == ' ',
        name.len() > 0,
        !text::is_space(name[0]),
        forall|i: int, j: int|
            0 <= i < parts.len() && 0 <= j < parts[i].len() ==> #[trigger] parts[i][j] != ';',
        forall|i: int|
            0 <= i < k ==> !text::has_prefix(text::trimmed(#[trigger] parts[i]), name + "="@),
    ensures
        header_number(text::joined(parts, ';'), name) == Some(n as int),
{
    text::law_pieces_are_cut_apart_again(parts, ';');
    let prefix = name + "="@;
    let digits = number::decimal(n as nat);
    number::lemma_decimal_is_bare(n as nat);
    number::law_decimal_reads_back(n as nat, u16::MAX as int);
    let part = prefix + pad + digits;
    assert(part =~= prefix + (pad + digits));
    assert(part[0] == name[0]);
    assert(part.last() == digits.last());
    text::law_trimming_takes_the_blanks_off_the_ends(lead, part, tail);
    text::law_trimming_takes_the_blanks_off_the_ends(pad, digits, Seq::empty());
    assert(pad + digits + Seq::<char>::empty() =~= pad + digits);
    text::law_a_prefix_is_a_beginning(prefix, pad + digits, part);
    assert(part.skip(prefix.len() as int) =~= pad + digits);
    lemma_first_with_prefix(parts, k, prefix);
}

/// A header that does not name a number, or names one that is none of 16 bits,
/// gives none.
pub proof fn law_an_unnamed_number_is_none(
    parts: Seq<Seq<char>>,
    k: int,
    name: Seq<char>,
    value: Seq<char>,
)
    requires
        0 < parts.len(),
        0 <= k <= parts.len(),
        forall|i: int, j: int|
            0 <= i < parts.len() && 0 <= j < parts[i].len() ==> #[trigger] parts[i][j] != ';',
        forall|i: int|
            0 <= i < k ==> !text::has_prefix(text::trimmed(#[trigger] parts[i]), name + "="@),
        k < parts.len() ==> text::trimmed(parts[k]) == name + "="@ + value
            && number::parsed_unsigned(text::trimmed(value), 10, 65_535) is None,
    ensures
        header_number(text::joined(parts, ';'), name) is None,
{
    text::law_pieces_are_cut_apart_again(parts, ';');
    let prefix = name + "="@;
    if k < parts.len() {
        text::law_a_prefix_is_a_beginning(prefix, value, prefix + value);
        assert((prefix + value).skip(prefix.len() as int) =~= value);
        lemma_first_with_prefix(parts, k, prefix);
    } else {
        lemma_none_with_prefix(parts, prefix);
    }
}

proof fn lemma_none_with_prefix(parts: Seq<Seq<char>>, prefix: Seq<char>)
    requires
        forall|i: int|
            0 <= i < parts.len() ==> !text::has_prefix(text::trimmed(#[trigger] parts[i]), prefix),
    ensures
        first_with_prefix(parts, prefix) is None,
    decreases parts.len(),
{
    if parts.len() > 0 {
        let rest = parts.skip(1);
        assert forall|i: int| 0 <= i < rest.len() implies !text::has_prefix(
            text::trimmed(#[trigger] rest[i]),
            prefix,
        ) by {
            assert(rest[i] == parts[i + 1]);
        }
        assert(!text::has_prefix(text::trimmed(parts[0]), prefix));
        lemma_none_with_prefix(rest, prefix);
    }
}

proof fn lemma_first_with_prefix(parts: Seq<Seq<char>>, k: int, prefix: Seq<char>)
    requires
        0 <= k < parts.len(),
        text::has_prefix(text::trimmed(parts[k]), prefix),
        forall|i: int| 0 <= i < k ==> !text::has_prefix(text::trimmed(#[trigger] parts[i]), prefix),
    ensures
        first_with_prefix(parts, prefix) == Some(
            text::trimmed(parts[k]).skip(prefix.len() as int),
        ),
    decreases k,
{
    if k > 0 {
        let rest = parts.skip(1);
        assert forall|i: int| 0 <= i < k - 1 implies !text::has_prefix(
            text::trimmed(#[trigger] rest[i]),
            prefix,
        ) by {
            assert(rest[i] == parts[i + 1]);
        }
        assert(!text::has_prefix(text::trimmed(parts[0]), prefix));
        lemma_first_with_prefix(rest, k - 1, prefix);
    }
}

/// A part without blanks.
proof fn lemma_bare_part(name: Seq<char>, n: u16)
    ensures
        ({
            let none = Seq::<char>::empty();
            none + (name + "="@ + none + number::decimal(n as nat)) + none == name + "="@
                + number::decimal(n as nat)
        }),
{
    let none = Seq::<char>::empty();
    assert(none + (name + "="@ + none + number::decimal(n as nat)) + none =~= name + "="@
        + number::decimal(n as nat));
}

/// Two texts that begin with different characters do not begin alike.
proof fn lemma_other_beginning(s: Seq<char>, prefix: Seq<char>, i: int)
    requires
        0 <= i < prefix.len(),
        i >= s.len() || s[i] != prefix[i],
    ensures
        !text::has_prefix(s, prefix),
{
    if text::has_prefix(s, prefix) {
        assert(s.take(prefix.len() as int)[i] == s[i]);
    }
}

/// A FLUSH of a running stream goes to the packet that its `RTP-Info` header
/// names as `seq=`, whatever else the header says and wherever it stands in it.
pub proof fn law_a_flush_goes_to_the_packet_it_names(
    request: RequestContent,
    parts: Seq<Seq<char>>,
    k: int,
    lead: Seq<char>,
    n: u16,
    tail: Seq<char>,
)
    requires
        rtsp::header_value(request.headers, "RTP-Info"@) == Some(text::joined(parts, ';')),
        0 <= k < parts.len(),
        parts[k] == lead + ("seq="@ + number::decimal(n as nat)) + tail,
        forall|i: int| 0 <= i < lead.len() ==> #[trigger] lead[i] == ' ',
        forall|i: int| 0 <= i < tail.len() ==> #[trigger] tail[i] == ' ',
        forall|i: int, j: int|
            0 <= i < parts.len() && 0 <= j < parts[i].len() ==> #[trigger] parts[i][j] != ';',
        forall|i: int| 0 <= i < k ==> !text::has_prefix(text::trimmed(#[trigger] parts[i]), "seq="@),
    ensures
        flush_effect(true, request) == Effect::Flush(Some(n)),
{
    reveal_strlit("seq");
    reveal_strlit("=");
    reveal_strlit("seq=");
    assert("seq"@.len() == 3);
    assert("seq"@[0] == 's');
    assert("seq="@ =~= "seq"@ + "="@);
    let none = Seq::<char>::empty();
    assert("seq"@ + "="@ + none + number::decimal(n as nat) =~= "seq="@ + number::decimal(
        n as nat,
    ));
    law_a_named_number_is_found(parts, k, lead, "seq"@, none, n, tail);
}

/// A FLUSH of a running stream whose header names no packet goes on with whatever
/// comes next.
pub proof fn law_a_flush_without_a_number_goes_on(
    request: RequestContent,
    parts: Seq<Seq<char>>,
    k: int,
    value: Seq<char>,
)
    requires
        rtsp::header_value(request.headers, "RTP-Info"@) == Some(text::joined(parts, ';')),
        0 < parts.len(),
        0 <= k <= parts.len(),
        forall|i: int, j: int|
            0 <= i < parts.len() && 0 <= j < parts[i].len() ==> #[trigger] parts[i][j] != ';',
        forall|i: int| 0 <= i < k ==> !text::has_prefix(text::trimmed(#[trigger] parts[i]), "seq="@),
        k < parts.len() ==> text::trimmed(parts[k]) == "seq="@ + value && number::parsed_unsigned(
            text::trimmed(value),
            10,
            65_535,
        ) is None,
    ensures
        flush_effect(true, request) == Effect::Flush(None),
{
    reveal_strlit("seq");
    reveal_strlit("=");
    reveal_strlit("seq=");
    assert("seq="@ =~= "seq"@ + "="@);
    law_an_unnamed_number_is_none(parts, k, "seq"@, value);
}

/// A FLUSH as senders send it: `RTP-Info: seq=n;rtptime=t` goes to packet `n`. A
/// FLUSH without the header goes on with whatever comes next, and one where
/// nothing streams flushes nothing.
pub proof fn law_a_seek_goes_to_its_sequence_number(
    request: RequestContent,
    headers: Seq<(Seq<char>, Seq<char>)>,
    n: u16,
    t: u32,
)
    requires
        request.headers == seq![
            (
                "RTP-Info"@,
                "seq="@ + number::decimal(n as nat) + ";rtptime="@ + number::decimal(t as nat),
            ),
        ] + headers,
    ensures
        flush_effect(true, request) == Effect::Flush(Some(n)),
        flush_effect(false, request) == Effect::Nothing,
        flush_effect(true, RequestContent { headers: Seq::empty(), ..request }) == Effect::Flush(
            None,
        ),
{
    reveal_strlit("seq=");
    reveal_strlit(";rtptime=");
    reveal_strlit("rtptime=");
    let first = "seq="@ + number::decimal(n as nat);
    let second = "rtptime="@ + number::decimal(t as nat);
    let parts = seq![first, second];
    number::lemma_decimal_is_bare(n as nat);
    number::lemma_decimal_is_bare(t as nat);
    assert(";rtptime="@ =~= seq![';'] + "rtptime="@);
    let value = first + ";rtptime="@ + number::decimal(t as nat);
    assert(parts.skip(1) =~= seq![second]);
    reveal_with_fuel(text::joined, 3);
    assert(value =~= text::joined(parts, ';'));
    assert forall|i: int, j: int| 0 <= i < parts.len() && 0 <= j < parts[i].len() implies
        #[trigger] parts[i][j] != ';' by {
        if i == 0 {
            assert(parts[0][j] == first[j]);
        } else {
            assert(parts[1][j] == second[j]);
        }
    }
    assert(request.headers[0] == ("RTP-Info"@, value));
    assert(text::same_ignoring_case("RTP-Info"@, "RTP-Info"@));
    assert(rtsp::header_value(request.headers, "RTP-Info"@) == Some(value));
    let none = Seq::<char>::empty();
    assert(none + first + none =~= first);
    law_a_flush_goes_to_the_packet_it_names(request, parts, 0, none, n, none);
}

/// A SETUP gives the ports that its `Transport` header names, whatever else the
/// header says and wherever they stand in it.
pub proof fn law_a_setup_gives_the_ports_it_names(
    request: RequestContent,
    parts: Seq<Seq<char>>,
    c: int,
    control: u16,
    t: int,
    timing: u16,
)
    requires
        rtsp::header_value(request.headers, "Transport"@) == Some(text::joined(parts, ';')),
        0 <= c < parts.len(),
        0 <= t < parts.len(),
        parts[c] == "control_port="@ + number::decimal(control as nat),
        parts[t] == "timing_port="@ + number::decimal(timing as nat),
        forall|i: int, j: int|
            0 <= i < parts.len() && 0 <= j < parts[i].len() ==> #[trigger] parts[i][j] != ';',
        forall|i: int|
            0 <= i < c ==> !text::has_prefix(text::trimmed(#[trigger] parts[i]), "control_port="@),
        forall|i: int|
            0 <= i < t ==> !text::has_prefix(text::trimmed(#[trigger] parts[i]), "timing_port="@),
    ensures
        setup_ports(request) == Some((control as int, timing as int)),
{
    reveal_strlit("control_port");
    reveal_strlit("timing_port");
    reveal_strlit("control_port=");
    reveal_strlit("timing_port=");
    reveal_strlit("=");
    assert("control_port"@.len() == 12 && "timing_port"@.len() == 11);
    assert("control_port"@[0] == 'c' && "timing_port"@[0] == 't');
    assert("control_port="@ =~= "control_port"@ + "="@);
    assert("timing_port="@ =~= "timing_port"@ + "="@);
    let none = Seq::<char>::empty();
    lemma_bare_part("control_port"@, control);
    lemma_bare_part("timing_port"@, timing);
    law_a_named_number_is_found(parts, c, none, "control_port"@, none, control, none);
    law_a_named_number_is_found(parts, t, none, "timing_port"@, none, timing, none);
}

/// The answer to a SETUP names the ports that were bound, each under its name,
/// so that the client reads them as what they are; it carries the session, and
/// is an error where none could be bound.
#[verifier::rlimit(40)]
pub proof fn law_the_setup_answer_names_the_bound_ports(bound: BoundPorts)
    ensures
        setup_response(Some(bound)).status == 200,
        rtsp::header_value(setup_response(Some(bound)).headers, "Session"@) == Some("1"@),
        rtsp::header_value(setup_response(Some(bound)).headers, "Transport"@) is Some,
        ({
            let transport = rtsp::header_value(
                setup_response(Some(bound)).headers,
                "Transport"@,
            )->0;
            &&& header_number(transport, "server_port"@) == Some(bound.audio as int)
            &&& header_number(transport, "control_port"@) == Some(bound.control as int)
            &&& header_number(transport, "timing_port"@) == Some(bound.timing as int)
        }),
        setup_response(None).status == 500,
{
    reveal_strlit("Transport");
    reveal_strlit("Session");
    reveal_strlit("RTP/AVP/UDP;unicast;interleaved=0-1;mode=record;control_port=");
    reveal_strlit(";timing_port=");
    reveal_strlit(";server_port=");
    reveal_strlit("RTP/AVP/UDP");
    reveal_strlit("unicast");
    reveal_strlit("interleaved=0-1");
    reveal_strlit("mode=record");
    reveal_strlit("control_port=");
    reveal_strlit("timing_port=");
    reveal_strlit("server_port=");
    reveal_strlit("control_port");
    reveal_strlit("timing_port");
    reveal_strlit("server_port");
    reveal_strlit("=");
    let control = "control_port="@ + number::decimal(bound.control as nat);
    let timing = "timing_port="@ + number::decimal(bound.timing as nat);
    let audio = "server_port="@ + number::decimal(bound.audio as nat);
    let parts = seq![
        "RTP/AVP/UDP"@,
        "unicast"@,
        "interleaved=0-1"@,
        "mode=record"@,
        control,
        timing,
        audio,
    ];
    number::lemma_decimal_is_bare(bound.control as nat);
    number::lemma_decimal_is_bare(bound.timing as nat);
    number::lemma_decimal_is_bare(bound.audio as nat);
    let p1 = parts.skip(1);
    let p2 = p1.skip(1);
    let p3 = p2.skip(1);
    let p4 = p3.skip(1);
    let p5 = p4.skip(1);
    let p6 = p5.skip(1);
    assert(p6 =~= seq![audio]);
    assert(text::joined(p6, ';') == audio);
    assert(text::joined(p5, ';') == timing + seq![';'] + audio);
    assert(text::joined(p4, ';') == control + seq![';'] + text::joined(p5, ';'));
    assert(text::joined(p3, ';') == "mode=record"@ + seq![';'] + text::joined(p4, ';'));
    assert(text::joined(p2, ';') == "interleaved=0-1"@ + seq![';'] + text::joined(p3, ';'));
    assert(text::joined(p1, ';') == "unicast"@ + seq![';'] + text::joined(p2, ';'));
    assert(text::joined(parts, ';') == "RTP/AVP/UDP"@ + seq![';'] + text::joined(p1, ';'));
    assert(";timing_port="@ =~= seq![';'] + "timing_port="@);
    assert(";server_port="@ =~= seq![';'] + "server_port="@);
    assert("RTP/AVP/UDP;unicast;interleaved=0-1;mode=record;control_port="@ =~= "RTP/AVP/UDP"@
        + seq![';'] + "unicast"@ + seq![';'] + "interleaved=0-1"@ + seq![';'] + "mode=record"@
        + seq![';'] + "control_port="@);
    let transport = transport_text(bound);
    assert(transport =~= text::joined(parts, ';'));
    assert forall|i: int, j: int| 0 <= i < parts.len() && 0 <= j < parts[i].len() implies
        #[trigger] parts[i][j] != ';' by {
        lemma_no_semicolon(parts[i], bound);
    }
    assert forall|i: int| 0 <= i < 7 implies text::trimmed(#[trigger] parts[i]) == parts[i] by {
        text::law_trimming_takes_the_blanks_off_the_ends(Seq::empty(), parts[i], Seq::empty());
    }
    assert("control_port="@ =~= "control_port"@ + "="@);
    assert("timing_port="@ =~= "timing_port"@ + "="@);
    assert("server_port="@ =~= "server_port"@ + "="@);
    assert("control_port"@[0] == 'c' && "timing_port"@[0] == 't' && "server_port"@[0] == 's');
    assert("control_port="@[0] == 'c' && "timing_port="@[0] == 't' && "server_port="@[0] == 's');
    assert(parts[0][0] == 'R' && parts[1][0] == 'u' && parts[2][0] == 'i' && parts[3][0] == 'm'
        && parts[4][0] == 'c' && parts[5][0] == 't');
    assert forall|i: int| 0 <= i < 4 implies !text::has_prefix(
        text::trimmed(#[trigger] parts[i]),
        "control_port="@,
    ) by {
        lemma_other_beginning(parts[i], "control_port="@, 0);
    }
    assert forall|i: int| 0 <= i < 5 implies !text::has_prefix(
        text::trimmed(#[trigger] parts[i]),
        "timing_port="@,
    ) by {
        lemma_other_beginning(parts[i], "timing_port="@, 0);
    }
    assert forall|i: int| 0 <= i < 6 implies !text::has_prefix(
        text::trimmed(#[trigger] parts[i]),
        "server_port="@,
    ) by {
        lemma_other_beginning(parts[i], "server_port="@, 0);
    }
    let none = Seq::<char>::empty();
    lemma_bare_part("control_port"@, bound.control);
    lemma_bare_part("timing_port"@, bound.timing);
    lemma_bare_part("server_port"@, bound.audio);
    law_a_named_number_is_found(parts, 4, none, "control_port"@, none, bound.control, none);
    law_a_named_number_is_found(parts, 5, none, "timing_port"@, none, bound.timing, none);
    law_a_named_number_is_found(parts, 6, none, "server_port"@, none, bound.audio, none);
    let headers = setup_response(Some(bound)).headers;
    assert(headers =~= seq![("Transport"@, transport), ("Session"@, "1"@)]);
    assert(text::same_ignoring_case("Transport"@, "Transport"@));
    assert(text::same_ignoring_case("Session"@, "Session"@));
    assert("Transport"@.len() == 9 && "Session"@.len() == 7);
    assert(headers.skip(1)[0] == ("Session"@, "1"@));
    reveal_with_fuel(rtsp::header_value, 3);
}

proof fn lemma_no_semicolon(part: Seq<char>, bound: BoundPorts)
    requires
        ({
            ||| part == "RTP/AVP/UDP"@
            ||| part == "unicast"@
            ||| part == "interleaved=0-1"@
            ||| part == "mode=record"@
            ||| part == "control_port="@ + number::decimal(bound.control as nat)
            ||| part == "timing_port="@ + number::decimal(bound.timing as nat)
            ||| part == "server_port="@ + number::decimal(bound.audio as nat)
        }),
    ensures
        forall|j: int| 0 <= j < part.len() ==> #[trigger] part[j] != ';',
{
    reveal_strlit("RTP/AVP/UDP");
    reveal_strlit("unicast");
    reveal_strlit("interleaved=0-1");
    reveal_strlit("mode=record");
    reveal_strlit("control_port=");
    reveal_strlit("timing_port=");
    reveal_strlit("server_port=");
    number::lemma_decimal_is_bare(bound.control as nat);
    number::lemma_decimal_is_bare(bound.timing as nat);
    number::lemma_decimal_is_bare(bound.audio as nat);
}

/// The media type of a content type is what stands before its parameters,
/// without the blanks around it.
pub proof fn law_a_media_type_has_no_parameters(
    media: Seq<char>,
    blanks: Seq<char>,
    parameters: Seq<char>,
)
    requires
        forall|i: int| 0 <= i < media.len() ==> #[trigger] media[i] != ';',
        forall|i: int| 0 <= i < blanks.len() ==> #[trigger] blanks[i] == ' ',
        media.len() > 0 ==> !text::is_space(media[0]) && !text::is_space(media.last()),
    ensures
        media_type(media + blanks + seq![';'] + parameters) == media,
        media_type(media + blanks) == media,
{
    let before = media + blanks;
    text::law_a_character_is_found_where_it_stands_first(before, ';', parameters);
    let all = before + seq![';'] + parameters;
    assert(all.take(before.len() as int) =~= before);
    assert(before.take(before.len() as int) =~= before);
    text::law_trimming_takes_the_blanks_off_the_ends(Seq::empty(), media, blanks);
    assert(Seq::<char>::empty() + media + blanks =~= before);
}

/// Which content is which: DMAP track metadata by its name, images by theirs
/// whatever the kind, in any case; parameters are neither.
pub proof fn law_content_is_told_apart(kind: Seq<char>)
    ensures
        is_dmap("application/x-dmap-tagged"@),
        !is_image("application/x-dmap-tagged"@),
        is_image("image/"@ + kind),
        !is_dmap("image/"@ + kind),
        is_image("IMAGE/"@ + kind),
        !is_image("text/parameters"@) && !is_dmap("text/parameters"@),
{
    reveal_strlit("application/x-dmap-tagged");
    reveal_strlit("image/");
    reveal_strlit("IMAGE/");
    reveal_strlit("text/parameters");
    assert("application/x-dmap-tagged"@[0] == 'a' && "image/"@[0] == 'i' && "text/parameters"@[0]
        == 't');
    assert("image/"@.len() == 6 && "IMAGE/"@.len() == 6);
    assert(("image/"@ + kind).take(6) =~= "image/"@);
    assert(("IMAGE/"@ + kind).take(6) =~= "IMAGE/"@);
    text::law_case_is_ignored_letter_by_letter("IMAGE/"@, "image/"@);
    text::law_case_is_ignored_letter_by_letter("image/"@, "image/"@);
    let d = "application/x-dmap-tagged"@.take(6);
    assert(d[0] == 'a');
    if text::same_ignoring_case(d, "image/"@) {
        assert(text::ascii_lower(d[0]) == text::ascii_lower("image/"@[0]));
    }
    let p = "text/parameters"@.take(6);
    assert(p[0] == 't');
    if text::same_ignoring_case(p, "image/"@) {
        assert(text::ascii_lower(p[0]) == text::ascii_lower("image/"@[0]));
    }
    if is_dmap("text/parameters"@) {
        assert(text::ascii_lower("text/parameters"@[0]) == text::ascii_lower(
            "application/x-dmap-tagged"@[0],
        ));
    }
    if is_dmap("image/"@ + kind) {
        assert(text::ascii_lower(("image/"@ + kind)[0]) == text::ascii_lower(
            "application/x-dmap-tagged"@[0],
        ));
    }
}

/// A volume line is told as the text that the sender sent, in a session or not;
/// what is no number is not told.
pub proof fn law_a_volume_is_told_as_sent(s: SessionState, blanks: Seq<char>, db: Seq<char>)
    requires
        forall|i: int| 0 <= i < blanks.len() ==> #[trigger] blanks[i] == ' ',
        db.len() > 0,
        !text::is_space(db[0]),
        !text::is_space(db.last()),
    ensures
        s.line_event("volume:"@ + blanks + db) == (if number::is_float_text(db) {
            Some(EventContent::Volume { db })
        } else {
            None
        }),
        s.progress_of("volume:"@ + blanks + db) is None,
{
    reveal_strlit("volume:");
    assert("volume:"@.len() == 7);
    assert("volume:"@[0] == 'v');
    let line = "volume:"@ + blanks + db;
    assert(line[0] == 'v' && line.last() == db.last());
    text::law_trimming_takes_the_blanks_off_the_ends(Seq::empty(), line, Seq::empty());
    assert(line =~= "volume:"@ + (blanks + db));
    text::law_a_prefix_is_a_beginning("volume:"@, blanks + db, line);
    assert(line.skip(7) =~= blanks + db);
    text::law_trimming_takes_the_blanks_off_the_ends(blanks, db, Seq::empty());
    assert(blanks + db + Seq::<char>::empty() =~= blanks + db);
}

/// A position is told as the time from the track's start: `progress:
/// start/current/end` in RTP timestamps of the stream's rate, never negative;
/// and where the track starts and ends is remembered. Outside a session it means
/// nothing.
pub proof fn law_a_position_is_counted_from_the_start(
    s: SessionState,
    lines: Seq<Seq<char>>,
    start: u32,
    current: u32,
    end: u32,
)
    ensures
        ({
            let line = "progress: "@ + number::decimal(start as nat) + "/"@ + number::decimal(
                current as nat,
            ) + "/"@ + number::decimal(end as nat);
            &&& s.streaming && s.params is Some ==> {
                let rate = s.params->0.alac.sample_rate;
                &&& s.line_event(line) == Some(
                    EventContent::Progress {
                        elapsed: time::frames_nanos(
                            if current >= start {
                                (current - start) as u32
                            } else {
                                0
                            },
                            rate,
                        ),
                        duration: time::frames_nanos(
                            if end >= start {
                                (end - start) as u32
                            } else {
                                0
                            },
                            rate,
                        ),
                    },
                )
                &&& s.line_track(lines.push(line)) == Some(Track { start, end })
            }
            &&& !s.streaming ==> s.line_event(line) is None && s.line_track(lines.push(line))
                == s.line_track(lines)
        }),
{
    lemma_progress_value(start, current, end);
    let a = number::decimal(start as nat);
    let b = number::decimal(current as nat);
    let c = number::decimal(end as nat);
    let value = a + seq!['/'] + b + seq!['/'] + c;
    let line = "progress: "@ + a + "/"@ + b + "/"@ + c;
    lemma_progress_line(start, current, end);
    assert(lines.push(line).drop_last() =~= lines);
}

/// What `line_event` makes of a progress line, piece by piece.
proof fn lemma_progress_line(start: u32, current: u32, end: u32)
    ensures
        ({
            let a = number::decimal(start as nat);
            let b = number::decimal(current as nat);
            let c = number::decimal(end as nat);
            let line = "progress: "@ + a + "/"@ + b + "/"@ + c;
            &&& text::trimmed(line) == line
            &&& !text::has_prefix(line, "volume:"@)
            &&& text::has_prefix(line, "progress:"@)
            &&& "progress:"@.len() == 9
            &&& text::trimmed(line.skip(9)) == a + seq!['/'] + b + seq!['/'] + c
        }),
{
    let a = number::decimal(start as nat);
    let b = number::decimal(current as nat);
    let c = number::decimal(end as nat);
    number::lemma_decimal_is_bare(start as nat);
    number::lemma_decimal_is_bare(end as nat);
    let line = "progress: "@ + a + "/"@ + b + "/"@ + c;
    let value = a + seq!['/'] + b + seq!['/'] + c;
    assert("/"@ =~= seq!['/']) by {
        reveal_strlit("/");
    }
    assert(line =~= "progress: "@ + value);
    assert(value[0] == a[0] && value.last() == c.last());
    lemma_progress_text(value);
}

/// A progress line is its name, a space and its value.
proof fn lemma_progress_text(value: Seq<char>)
    requires
        value.len() > 0,
        !text::is_space(value[0]),
        !text::is_space(value.last()),
    ensures
        ({
            let line = "progress: "@ + value;
            &&& text::trimmed(line) == line
            &&& !text::has_prefix(line, "volume:"@)
            &&& text::has_prefix(line, "progress:"@)
            &&& "progress:"@.len() == 9
            &&& text::trimmed(line.skip(9)) == value
        }),
{
    reveal_strlit("progress: ");
    reveal_strlit("progress:");
    reveal_strlit("volume:");
    let none = Seq::<char>::empty();
    let line = "progress: "@ + value;
    assert("progress: "@[0] == 'p');
    assert(line[0] == 'p' && line.last() == value.last());
    text::law_trimming_takes_the_blanks_off_the_ends(none, line, none);
    assert("progress: "@ =~= "progress:"@ + seq![' ']);
    assert(line =~= "progress:"@ + (seq![' '] + value));
    text::law_a_prefix_is_a_beginning("progress:"@, seq![' '] + value, line);
    assert(line.skip(9) =~= seq![' '] + value);
    assert("volume:"@[0] == 'v');
    lemma_other_beginning(line, "volume:"@, 0);
    text::law_trimming_takes_the_blanks_off_the_ends(seq![' '], value, none);
    assert(seq![' '] + value + none =~= seq![' '] + value);
}

/// Three numbers with slashes between them are read as the three.
proof fn lemma_progress_value(start: u32, current: u32, end: u32)
    ensures
        progress_parts(
            number::decimal(start as nat) + seq!['/'] + number::decimal(current as nat) + seq!['/']
                + number::decimal(end as nat),
        ) == Some((start, current, end)),
{
    let a = number::decimal(start as nat);
    let b = number::decimal(current as nat);
    let c = number::decimal(end as nat);
    let value = a + seq!['/'] + b + seq!['/'] + c;
    number::lemma_decimal_is_bare(start as nat);
    number::lemma_decimal_is_bare(current as nat);
    number::lemma_decimal_is_bare(end as nat);
    number::law_decimal_reads_back(start as nat, u32::MAX as int);
    number::law_decimal_reads_back(current as nat, u32::MAX as int);
    number::law_decimal_reads_back(end as nat, u32::MAX as int);
    let parts = seq![a, b, c];
    assert(text::joined(parts, '/') =~= value) by {
        reveal_with_fuel(text::joined, 4);
        assert(parts.skip(1) =~= seq![b, c]);
        assert(seq![b, c].skip(1) =~= seq![c]);
    }
    assert forall|i: int, j: int| 0 <= i < parts.len() && 0 <= j < parts[i].len() implies
        #[trigger] parts[i][j] != '/' by {
        if i == 0 {
            assert('0' <= a[j] <= '9');
        } else if i == 1 {
            assert('0' <= b[j] <= '9');
        } else {
            assert('0' <= c[j] <= '9');
        }
    }
    text::law_pieces_are_cut_apart_again(parts, '/');
}

/// What several lines tell is what each tells, in their order.
pub proof fn law_lines_are_told_in_order(s: SessionState, lines: Seq<Seq<char>>, line: Seq<char>)
    ensures
        s.line_events(Seq::empty()) == Seq::<EventContent>::empty(),
        s.line_event(line) is None ==> s.line_events(lines.push(line)) == s.line_events(lines),
        s.line_event(line) is Some ==> s.line_events(lines.push(line)) == s.line_events(lines).push(
            s.line_event(line)->0,
        ),
{
    assert(lines.push(line).drop_last() =~= lines);
    assert(s.line_events(lines) + Seq::<EventContent>::empty() =~= s.line_events(lines));
    if s.line_event(line) is Some {
        assert(s.line_events(lines) + seq![s.line_event(line)->0] =~= s.line_events(lines).push(
            s.line_event(line)->0,
        ));
    }
}

/// Cover art is told as it was sent, byte for byte and under its media type, in
/// a session; outside it is kept for the next.
pub proof fn law_artwork_is_told_as_sent(s: SessionState, kind: Seq<char>, data: Seq<u8>)
    requires
        forall|i: int| 0 <= i < kind.len() ==> #[trigger] kind[i] != ';',
        kind.len() > 0,
        !text::is_space(kind.last()),
    ensures
        s.streaming ==> s.parameter_events(Some("image/"@ + kind), data) == seq![
            EventContent::Artwork { content_type: "image/"@ + kind, data },
        ],
        s.streaming ==> s.after_parameter(Some("image/"@ + kind), data) == s,
        !s.streaming ==> s.parameter_events(Some("image/"@ + kind), data) == Seq::<
            EventContent,
        >::empty(),
        !s.streaming ==> s.after_parameter(Some("image/"@ + kind), data) == (SessionState {
            pending_artwork: Some(
                EventContent::Artwork { content_type: "image/"@ + kind, data },
            ),
            ..s
        }),
{
    reveal_strlit("image/");
    law_content_is_told_apart(kind);
    let media = "image/"@ + kind;
    assert forall|i: int| 0 <= i < media.len() implies #[trigger] media[i] != ';' by {
        if i >= 6 {
            assert(media[i] == kind[i - 6]);
        }
    }
    assert(media[0] == 'i' && media.last() == kind.last());
    law_a_media_type_has_no_parameters(media, Seq::empty(), Seq::empty());
    assert(media + Seq::<char>::empty() =~= media);
}

/// Track metadata is told as it was sent: title, artist and album, each under
/// its name, in a session; outside it is kept for the next.
pub proof fn law_metadata_is_told_as_sent(
    s: SessionState,
    body: Seq<u8>,
    item: Seq<u8>,
    minm: Seq<u8>,
    title: Seq<u8>,
    asar: Seq<u8>,
    artist: Seq<u8>,
    asal: Seq<u8>,
    album: Seq<u8>,
    meta: dmap::Metadata,
)
    requires
        dmap::is_field(minm, seq![0x6du8, 0x69, 0x6e, 0x6d], title),
        dmap::is_field(asar, seq![0x61u8, 0x73, 0x61, 0x72], artist),
        dmap::is_field(asal, seq![0x61u8, 0x73, 0x61, 0x6c], album),
        item == minm + asar + asal,
        dmap::is_field(body, seq![0x6du8, 0x6c, 0x69, 0x74], item),
    ensures
        ({
            let told = EventContent::Metadata {
                title: Some(utf8::utf8_lossy(title)),
                artist: Some(utf8::utf8_lossy(artist)),
                album: Some(utf8::utf8_lossy(album)),
            };
            let kind = Some("application/x-dmap-tagged"@);
            &&& s.streaming ==> s.parameter_events(kind, body) == seq![told]
                && s.after_parameter(kind, body) == s
            &&& !s.streaming ==> s.parameter_events(kind, body) == Seq::<EventContent>::empty()
                && s.after_parameter(kind, body) == (SessionState {
                pending_metadata: Some(told),
                ..s
            })
        }),
{
    dmap::law_a_track_reads_back(body, item, minm, title, asar, artist, asal, album, meta);
    law_content_is_told_apart(Seq::empty());
    reveal_strlit("application/x-dmap-tagged");
    let media = "application/x-dmap-tagged"@;
    assert forall|i: int| 0 <= i < media.len() implies #[trigger] media[i] != ';' by {}
    law_a_media_type_has_no_parameters(media, Seq::empty(), Seq::empty());
    assert(media + Seq::<char>::empty() =~= media);
}

/// The start of a session tells the format of the stream and who sends it, and
/// what was kept for it, metadata before artwork; what was told is not kept.
pub proof fn law_a_start_tells_format_and_sender(s: SessionState, params: StreamParams)
    requires
        s.wf(),
        !s.streaming,
    ensures
        s.start_events(params) == seq![
            EventContent::SessionStarted {
                rate: params.alac.sample_rate,
                channels: params.alac.channels,
                peer: s.peer,
            },
        ] + (match s.pending_metadata {
            Some(event) => seq![event],
            None => Seq::empty(),
        }) + (match s.pending_artwork {
            Some(event) => seq![event],
            None => Seq::empty(),
        }),
        s.started() == (SessionState {
            streaming: true,
            pending_metadata: None,
            pending_artwork: None,
            track: None,
            ..s
        }),
{
    assert(s.start_events(params) =~= seq![
        EventContent::SessionStarted {
            rate: params.alac.sample_rate,
            channels: params.alac.channels,
            peer: s.peer,
        },
    ] + (match s.pending_metadata {
        Some(event) => seq![event],
        None => Seq::empty(),
    }) + (match s.pending_artwork {
        Some(event) => seq![event],
        None => Seq::empty(),
    }));
}

/// The end of a session tells so, after the flushes that were owed, and frees the
/// slot; what was announced and latched stays. Where none runs it tells nothing.
pub proof fn law_an_end_tells_so_last(s: SessionState)
    requires
        s.wf(),
    ensures
        s.streaming ==> {
            &&& s.end_events().len() == s.owed + 1
            &&& s.end_events().last() is SessionEnded
            &&& forall|i: int| 0 <= i < s.owed ==> #[trigger] s.end_events()[i] is Flushed
        },
        !s.streaming ==> s.end_events().len() == 0,
        s.ended() == (SessionState { streaming: false, holds_slot: false, owed: 0, ..s }),
{
}

/// A player's report is told while there is something to tell of: every position
/// in a session, and a flush that is owed; nothing else.
pub proof fn law_reports_are_told_in_a_session(s: SessionState, report: EventContent)
    requires
        s.wf(),
    ensures
        report is Progress && s.streaming ==> s.relayed(report) == seq![report],
        report is Flushed && s.owed > 0 ==> s.relayed(report) == seq![report],
        !s.streaming ==> s.relayed(report).len() == 0,
        !(report is Progress) && !(report is Flushed) ==> s.relayed(report).len() == 0,
        report is Progress ==> s.after_relay(report) == s,
{
}

/// How requests are refused: in the wrong order with 455, for want of the slot
/// with 453, and for want of what they need with 400.
pub proof fn law_refusals_have_their_status()
    ensures
        wrong_state().status == 455,
        wrong_state().reason == "Method Not Valid in This State"@,
        refused().status == 453,
        refused().reason == "Not Enough Bandwidth"@,
        bad_request().status == 400,
        bad_request().reason == "Bad Request"@,
        setup_response(None).status == 500,
        setup_response(None).reason == "Internal Server Error"@,
{
}

/// An ANNOUNCE says in words what its status says.
pub proof fn law_announcements_are_answered_in_words(lines: Seq<Seq<char>>, key_pem: Seq<char>)
    ensures
        ({
            let answer = announce_status(lines, key_pem);
            &&& answer.status == 200 || answer.status == 400 || answer.status == 456
            &&& answer.status == 200 ==> answer.reason == "OK"@
            &&& answer.status == 400 ==> answer.reason == "Bad Request"@
            &&& answer.status == 456 ==> answer.reason == "Header Field Not Valid for Resource"@
            &&& answer.headers.len() == 0
            &&& answer.body.len() == 0
        }),
{
}

/// An ANNOUNCE is accepted just where it gives a format that can be read, and
/// either no key material at all or a key and an IV that can be used; a bad
/// format is refused with 400, bad key material with 456.
pub proof fn law_an_announce_needs_a_format_and_all_of_a_key(
    lines: Seq<Seq<char>>,
    key_pem: Seq<char>,
    params: StreamParams,
)
    ensures
        ({
            let fmtp = sdp::last_attribute(lines, "fmtp"@);
            let key = sdp::last_attribute(lines, "rsaaeskey"@);
            let iv = sdp::last_attribute(lines, "aesiv"@);
            let status = announce_status(lines, key_pem).status;
            let good = fmtp is Some && sdp::fmtp_ok(fmtp->0);
            &&& !good ==> status == 400
            &&& good && key is None && iv is None ==> status == 200 && (is_announced(
                params,
                lines,
                key_pem,
            ) ==> !params.encrypted)
            &&& good && (key is Some) != (iv is Some) ==> status == 456
            &&& good && key is Some && iv is Some ==> {
                &&& crypto::stream_key(key->0, iv->0, key_pem) is Err ==> status == 456
                &&& crypto::stream_key(key->0, iv->0, key_pem) matches Ok(keys) ==> status == 200
                    && (is_announced(params, lines, key_pem) ==> params.encrypted && params.key@
                    == keys.0 && params.iv@ == keys.1)
            }
            &&& status == 200 && is_announced(params, lines, key_pem) ==> is_config(
                params.alac,
                fmtp->0,
            )
        }),
{
}

/// A SETUP of a connection that already streams ends that session first, with the
/// flushes that it owes, and then starts the next.
pub proof fn law_a_restart_ends_the_session_first(s: SessionState, params: StreamParams)
    requires
        s.wf(),
        s.streaming,
    ensures
        s.start_events(params).len() == s.owed + 2,
        forall|i: int| 0 <= i < s.owed ==> #[trigger] s.start_events(params)[i] is Flushed,
        s.start_events(params)[s.owed as int] is SessionEnded,
        s.start_events(params).last() == (EventContent::SessionStarted {
            rate: params.alac.sample_rate,
            channels: params.alac.channels,
            peer: s.peer,
        }),
        s.started().owed == 0,
        s.started().track is None,
        s.started().streaming,
{
}

/// What is neither track metadata nor an image is read as lines of parameters;
/// they can change the track's place and nothing else.
pub proof fn law_parameters_are_read_line_by_line(
    s: SessionState,
    content_type: Option<Seq<char>>,
    body: Seq<u8>,
)
    requires
        content_type is Some ==> !is_dmap(media_type(content_type->0)) && !is_image(
            media_type(content_type->0),
        ),
    ensures
        s.parameter_events(content_type, body) == s.line_events(
            text::lines_of(utf8::utf8_lossy(body)),
        ),
        s.after_parameter(content_type, body).track == s.line_track(
            text::lines_of(utf8::utf8_lossy(body)),
        ),
        s.after_parameter(content_type, body) == (SessionState {
            track: s.after_parameter(content_type, body).track,
            ..s
        }),
{
}

/// A line that is neither a volume nor a position tells nothing and moves
/// nothing.
pub proof fn law_other_lines_tell_nothing(
    s: SessionState,
    lines: Seq<Seq<char>>,
    line: Seq<char>,
)
    requires
        line.len() > 0,
        !text::is_space(line[0]),
        !text::is_space(line.last()),
        line[0] != 'v',
        line[0] != 'p',
    ensures
        s.line_event(line) is None,
        s.line_track(lines.push(line)) == s.line_track(lines),
        s.line_track(Seq::empty()) == s.track,
{
    reveal_strlit("volume:");
    reveal_strlit("progress:");
    assert("volume:"@[0] == 'v' && "progress:"@[0] == 'p');
    let none = Seq::<char>::empty();
    text::law_trimming_takes_the_blanks_off_the_ends(none, line, none);
    lemma_other_beginning(line, "volume:"@, 0);
    lemma_other_beginning(line, "progress:"@, 0);
    assert(lines.push(line).drop_last() =~= lines);
}

/// A flush of a running stream is owed until the player has made it; one where
/// nothing streams is told at once. Each is owed once and told once.
pub proof fn law_a_flush_is_owed_or_told(s: SessionState)
    requires
        s.wf(),
    ensures
        s.streaming ==> s.flush_events().len() == 0 && s.after_flush().owed == s.owed + 1
            && s.after_flush() == (SessionState { owed: s.owed + 1, ..s }),
        !s.streaming ==> s.flush_events().len() == 1 && s.flush_events()[0] is Flushed
            && s.after_flush() == s,
        s.owed > 0 ==> s.after_relay(EventContent::Flushed) == (SessionState {
            owed: (s.owed - 1) as nat,
            ..s
        }) && s.relayed(EventContent::Flushed).len() == 1,
        s.owed == 0 ==> s.after_relay(EventContent::Flushed) == s && s.relayed(
            EventContent::Flushed,
        ).len() == 0,
{
}

/// What an ANNOUNCE announces is the format that it sent, number by number: the
/// packet length, the bit depth, the channels and the rate by their places in it.
pub proof fn law_the_announced_format_is_the_one_sent(
    params: StreamParams,
    lines: Seq<Seq<char>>,
    key_pem: Seq<char>,
    numbers: Seq<u32>,
)
    requires
        numbers.len() >= 12,
        sdp::last_attribute(lines, "fmtp"@) == Some(
            text::joined(numbers.map_values(|n: u32| number::decimal(n as nat)), ' '),
        ),
        is_announced(params, lines, key_pem),
    ensures
        params.alac.frames_per_packet == numbers[1],
        params.alac.bit_depth == numbers[3] % 256,
        params.alac.channels == numbers[7] % 256,
        params.alac.sample_rate == numbers[11],
        forall|i: int| 0 <= i < 12 ==> #[trigger] params.alac.raw@[i] == numbers[i],
{
    let fmtp = text::joined(numbers.map_values(|n: u32| number::decimal(n as nat)), ' ');
    sdp::law_a_format_is_read_number_by_number(params.alac, numbers, fmtp, 0);
    assert forall|i: int| 0 <= i < 12 implies #[trigger] params.alac.raw@[i] == numbers[i] by {
        sdp::law_a_format_is_read_number_by_number(params.alac, numbers, fmtp, i);
    }
}

} // verus!

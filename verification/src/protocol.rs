//! What a receiver tells a dashboard.
//!
//! A dashboard gets a [`Snapshot`] when it connects, carrying everything that
//! the receiver currently knows, and one message per change afterwards.
//!
//! Conventions: durations are integer milliseconds, the sender's address is a
//! string, volumes are the text of a floating-point number, and cover art is
//! base64; empty artwork data means that the sender cleared the art.

use vstd::prelude::*;

use crate::crypto;
use crate::crypto::base64_encode_padded;
use crate::events::{Event, EventContent};
use crate::text;
use crate::text::copy_text;
use crate::time;

verus! {

/// One message on the dashboard socket.
#[non_exhaustive]
#[derive(Debug, Clone, PartialEq)]
pub enum Message {
    /// Everything the receiver knows right now. Sent on connect, and again to
    /// resync a client that fell behind.
    Snapshot(Snapshot),
    /// A sender started streaming.
    SessionStarted { rate: u32, channels: u8, peer: String },
    /// Track metadata: a complete statement about the current track, not a
    /// delta.
    Metadata { title: Option<String>, artist: Option<String>, album: Option<String> },
    /// Cover art, base64-encoded. Empty `data_base64` means it was cleared.
    Artwork { content_type: String, data_base64: String },
    /// Volume in AirPlay dB (0 = full scale, -144 = mute).
    Volume { db: String },
    /// Playback position.
    Progress { elapsed_ms: u64, duration_ms: u64 },
    /// The sender sought or stopped; the position is stale until the next
    /// [`Message::Progress`].
    Flushed,
    /// The streaming session ended.
    SessionEnded,
}

/// Everything the receiver currently knows, as one message.
#[derive(Debug, PartialEq)]
pub struct Snapshot {
    /// The receiver publishing this.
    pub receiver: ReceiverInfo,
    /// The stream in progress, if any.
    pub session: Option<SessionInfo>,
    /// The current track, if the sender sent metadata.
    pub track: Option<Track>,
    /// Volume in AirPlay dB, if the sender set one.
    pub volume_db: Option<String>,
    /// Playback position as last reported.
    pub progress: Option<Progress>,
    /// The current cover art, if any.
    pub artwork: Option<Artwork>,
}

/// Which receiver a dashboard is looking at.
#[derive(Debug, Clone, PartialEq)]
pub struct ReceiverInfo {
    /// The name the receiver advertises over mDNS.
    pub name: String,
    /// The receiver's version, so that a dashboard can spot a mismatch.
    pub version: String,
}

/// The stream's format and where it came from.
#[derive(Debug, Clone, PartialEq)]
pub struct SessionInfo {
    /// Sample rate in Hz.
    pub rate: u32,
    /// Channel count.
    pub channels: u8,
    /// The address the sender connected from.
    pub peer: String,
}

/// Track metadata.
#[derive(Debug, Clone, PartialEq)]
pub struct Track {
    pub title: Option<String>,
    pub artist: Option<String>,
    pub album: Option<String>,
}

/// Playback position within the current track.
#[derive(Debug, Clone, Copy, PartialEq, Eq, Structural)]
pub struct Progress {
    /// How far into the track playback is.
    pub elapsed_ms: u64,
    /// The track's length; zero when there is no known end.
    pub duration_ms: u64,
}

/// Cover art as sent.
#[derive(Debug, Clone, PartialEq)]
pub struct Artwork {
    /// The image media type as the sender labelled it.
    pub content_type: String,
    /// Base64 of the image bytes.
    pub data_base64: String,
}

/// What a track says.
pub struct TrackContent {
    pub title: Option<Seq<char>>,
    pub artist: Option<Seq<char>>,
    pub album: Option<Seq<char>>,
}

/// What a snapshot says.
pub struct SnapshotContent {
    /// The receiver's name and version.
    pub receiver: (Seq<char>, Seq<char>),
    /// The stream's rate, channels and peer.
    pub session: Option<(u32, u8, Seq<char>)>,
    pub track: Option<TrackContent>,
    pub volume_db: Option<Seq<char>>,
    pub progress: Option<Progress>,
    /// The art's media type and base64.
    pub artwork: Option<(Seq<char>, Seq<char>)>,
}

/// What a message says.
pub enum MessageContent {
    Snapshot(SnapshotContent),
    SessionStarted { rate: u32, channels: u8, peer: Seq<char> },
    Metadata(TrackContent),
    Artwork { content_type: Seq<char>, data_base64: Seq<char> },
    Volume { db: Seq<char> },
    Progress(Progress),
    Flushed,
    SessionEnded,
}

impl View for Track {
    type V = TrackContent;

    open spec fn view(&self) -> TrackContent {
        TrackContent {
            title: text::optional_text(self.title),
            artist: text::optional_text(self.artist),
            album: text::optional_text(self.album),
        }
    }
}

impl View for Snapshot {
    type V = SnapshotContent;

    open spec fn view(&self) -> SnapshotContent {
        SnapshotContent {
            receiver: (self.receiver.name@, self.receiver.version@),
            session: match self.session {
                Some(s) => Some((s.rate, s.channels, s.peer@)),
                None => None,
            },
            track: match self.track {
                Some(track) => Some(track@),
                None => None,
            },
            volume_db: text::optional_text(self.volume_db),
            progress: self.progress,
            artwork: match self.artwork {
                Some(art) => Some((art.content_type@, art.data_base64@)),
                None => None,
            },
        }
    }
}

impl View for Message {
    type V = MessageContent;

    open spec fn view(&self) -> MessageContent {
        match *self {
            Message::Snapshot(snapshot) => MessageContent::Snapshot(snapshot@),
            Message::SessionStarted { rate, channels, peer } => MessageContent::SessionStarted {
                rate,
                channels,
                peer: peer@,
            },
            Message::Metadata { title, artist, album } => MessageContent::Metadata(
                TrackContent {
                    title: text::optional_text(title),
                    artist: text::optional_text(artist),
                    album: text::optional_text(album),
                },
            ),
            Message::Artwork { content_type, data_base64 } => MessageContent::Artwork {
                content_type: content_type@,
                data_base64: data_base64@,
            },
            Message::Volume { db } => MessageContent::Volume { db: db@ },
            Message::Progress { elapsed_ms, duration_ms } => MessageContent::Progress(
                Progress { elapsed_ms, duration_ms },
            ),
            Message::Flushed => MessageContent::Flushed,
            Message::SessionEnded => MessageContent::SessionEnded,
        }
    }
}

impl SnapshotContent {
    /// What is known of a receiver that does nothing.
    pub open spec fn idle(receiver: (Seq<char>, Seq<char>)) -> SnapshotContent {
        SnapshotContent {
            receiver,
            session: None,
            track: None,
            volume_db: None,
            progress: None,
            artwork: None,
        }
    }

    /// What is known after a message. A seek makes the position stale; the end
    /// of a session leaves only the receiver's own identity.
    pub open spec fn applied(self, message: MessageContent) -> SnapshotContent {
        match message {
            MessageContent::Snapshot(snapshot) => snapshot,
            MessageContent::SessionStarted { rate, channels, peer } => SnapshotContent {
                session: Some((rate, channels, peer)),
                ..self
            },
            MessageContent::Metadata(track) => SnapshotContent { track: Some(track), ..self },
            MessageContent::Artwork { content_type, data_base64 } => SnapshotContent {
                artwork: if data_base64.len() == 0 {
                    None
                } else {
                    Some((content_type, data_base64))
                },
                ..self
            },
            MessageContent::Volume { db } => SnapshotContent { volume_db: Some(db), ..self },
            MessageContent::Progress(progress) => SnapshotContent {
                progress: Some(progress),
                ..self
            },
            MessageContent::Flushed => SnapshotContent { progress: None, ..self },
            MessageContent::SessionEnded => SnapshotContent::idle(self.receiver),
        }
    }

    /// What is known after some messages.
    pub open spec fn applied_all(self, messages: Seq<MessageContent>) -> SnapshotContent
        decreases messages.len(),
    {
        if messages.len() == 0 {
            self
        } else {
            self.applied_all(messages.drop_last()).applied(messages.last())
        }
    }
}

/// The base64 of an image; that of no image is empty.
pub open spec fn image_text(data: Seq<u8>) -> Seq<char> {
    if data.len() == 0 {
        Seq::empty()
    } else {
        crypto::base64_padded(data)
    }
}

/// What a dashboard is told of an event.
pub open spec fn message_for(event: EventContent) -> MessageContent {
    match event {
        EventContent::SessionStarted { rate, channels, peer } => MessageContent::SessionStarted {
            rate,
            channels,
            peer,
        },
        EventContent::Metadata { title, artist, album } => MessageContent::Metadata(
            TrackContent { title, artist, album },
        ),
        EventContent::Artwork { content_type, data } => MessageContent::Artwork {
            content_type,
            data_base64: image_text(data),
        },
        EventContent::Volume { db } => MessageContent::Volume { db },
        EventContent::Progress { elapsed, duration } => MessageContent::Progress(
            Progress {
                elapsed_ms: time::whole_millis(elapsed) as u64,
                duration_ms: time::whole_millis(duration) as u64,
            },
        ),
        EventContent::Flushed => MessageContent::Flushed,
        EventContent::SessionEnded => MessageContent::SessionEnded,
    }
}

/// The message that tells a dashboard of an event.
pub fn message_of(event: &Event) -> (message: Message)
    ensures
        message@ == message_for(event@),
{
    match event {
        Event::SessionStarted { rate, channels, peer } => Message::SessionStarted {
            rate: *rate,
            channels: *channels,
            peer: peer.clone(),
        },
        Event::Metadata { title, artist, album } => Message::Metadata {
            title: copy_text(title),
            artist: copy_text(artist),
            album: copy_text(album),
        },
        Event::Artwork { content_type, data } => Message::Artwork {
            content_type: content_type.clone(),
            data_base64: if data.len() == 0 {
                String::new()
            } else {
                base64_encode_padded(data.as_slice())
            },
        },
        Event::Volume { db } => Message::Volume { db: db.clone() },
        Event::Progress { elapsed, duration } => Message::Progress {
            elapsed_ms: elapsed.as_millis(),
            duration_ms: duration.as_millis(),
        },
        Event::Flushed => Message::Flushed,
        Event::SessionEnded => Message::SessionEnded,
    }
}

impl Default for ReceiverInfo {
    fn default() -> (info: ReceiverInfo)
        ensures
            info.name@ == Seq::<char>::empty(),
            info.version@ == Seq::<char>::empty(),
    {
        ReceiverInfo { name: String::new(), version: String::new() }
    }
}

impl Default for Snapshot {
    fn default() -> (snapshot: Snapshot)
        ensures
            snapshot@ == SnapshotContent::idle((Seq::empty(), Seq::empty())),
    {
        Snapshot {
            receiver: ReceiverInfo::default(),
            session: None,
            track: None,
            volume_db: None,
            progress: None,
            artwork: None,
        }
    }
}

impl Clone for Snapshot {
    fn clone(&self) -> (copy: Snapshot)
        ensures
            copy@ == self@,
    {
        Snapshot {
            receiver: ReceiverInfo {
                name: self.receiver.name.clone(),
                version: self.receiver.version.clone(),
            },
            session: match &self.session {
                Some(s) => Some(
                    SessionInfo { rate: s.rate, channels: s.channels, peer: s.peer.clone() },
                ),
                None => None,
            },
            track: match &self.track {
                Some(t) => Some(
                    Track {
                        title: copy_text(&t.title),
                        artist: copy_text(&t.artist),
                        album: copy_text(&t.album),
                    },
                ),
                None => None,
            },
            volume_db: copy_text(&self.volume_db),
            progress: self.progress,
            artwork: match &self.artwork {
                Some(a) => Some(
                    Artwork {
                        content_type: a.content_type.clone(),
                        data_base64: a.data_base64.clone(),
                    },
                ),
                None => None,
            },
        }
    }
}

impl Snapshot {
    /// Fold a change message into this snapshot, so that the receiver can hand
    /// the current state to a client that connects later. A
    /// [`Message::Snapshot`] replaces the whole thing.
    pub fn apply(&mut self, message: &Message)
        ensures
            final(self)@ == old(self)@.applied(message@),
            message is SessionEnded ==> final(self).session is None && final(self).track is None
                && final(self).volume_db is None && final(self).progress is None
                && final(self).artwork is None,
            message is Flushed ==> final(self).progress is None,
    {
        match message {
            Message::Snapshot(snapshot) => {
                *self = snapshot.clone();
            },
            Message::SessionStarted { rate, channels, peer } => {
                self.session = Some(
                    SessionInfo { rate: *rate, channels: *channels, peer: peer.clone() },
                );
            },
            Message::Metadata { title, artist, album } => {
                self.track = Some(
                    Track {
                        title: copy_text(title),
                        artist: copy_text(artist),
                        album: copy_text(album),
                    },
                );
            },
            Message::Artwork { content_type, data_base64 } => {
                self.artwork = if data_base64.as_str().is_empty() {
                    None
                } else {
                    Some(
                        Artwork {
                            content_type: content_type.clone(),
                            data_base64: data_base64.clone(),
                        },
                    )
                };
            },
            Message::Volume { db } => {
                self.volume_db = Some(db.clone());
            },
            Message::Progress { elapsed_ms, duration_ms } => {
                self.progress = Some(
                    Progress { elapsed_ms: *elapsed_ms, duration_ms: *duration_ms },
                );
            },
            Message::Flushed => {
                self.progress = None;
            },
            Message::SessionEnded => {
                self.session = None;
                self.track = None;
                self.volume_db = None;
                self.progress = None;
                self.artwork = None;
            },
        }
    }
}

/// A client that gets a snapshot, at whatever point and whatever it knew
/// before, and then the same changes, knows what the receiver knows.
pub proof fn law_a_snapshot_resyncs_a_client(
    client: SnapshotContent,
    receiver: SnapshotContent,
    changes: Seq<MessageContent>,
)
    ensures
        client.applied(MessageContent::Snapshot(receiver)).applied_all(changes)
            == receiver.applied_all(changes),
{
}

/// Hearing a message twice is as good as hearing it once.
pub proof fn law_duplicates_are_harmless(s: SnapshotContent, message: MessageContent)
    ensures
        s.applied(message).applied(message) == s.applied(message),
{
}

/// The receiver's identity outlives every session: only a snapshot changes it.
pub proof fn law_the_receiver_outlives_the_session(s: SnapshotContent, message: MessageContent)
    requires
        message !is Snapshot,
    ensures
        s.applied(message).receiver == s.receiver,
{
}

/// Nothing of a session is known after it has ended, whatever was known before:
/// no stream, no track, no volume, no position and no art. The receiver is still
/// who it was.
pub proof fn law_nothing_outlives_a_session(s: SnapshotContent)
    ensures
        s.applied(MessageContent::SessionEnded).session is None,
        s.applied(MessageContent::SessionEnded).track is None,
        s.applied(MessageContent::SessionEnded).volume_db is None,
        s.applied(MessageContent::SessionEnded).progress is None,
        s.applied(MessageContent::SessionEnded).artwork is None,
        s.applied(MessageContent::SessionEnded).receiver == s.receiver,
{
}

/// The same of the snapshots themselves: one that comes of another by the end of
/// a session has none of what the other had but the receiver's name and version.
pub proof fn law_an_ended_session_clears_the_snapshot(
    before: Snapshot,
    message: Message,
    after: Snapshot,
)
    requires
        message is SessionEnded,
        after@ == before@.applied(message@),
    ensures
        after.session is None,
        after.track is None,
        after.volume_db is None,
        after.progress is None,
        after.artwork is None,
        after.receiver.name@ == before.receiver.name@,
        after.receiver.version@ == before.receiver.version@,
{
}

/// Nothing of one session is known in the next: what is known once a session has
/// started does not depend on what was known before the last one ended.
pub proof fn law_sessions_do_not_mix(
    first: SnapshotContent,
    second: SnapshotContent,
    rate: u32,
    channels: u8,
    peer: Seq<char>,
)
    requires
        first.receiver == second.receiver,
    ensures
        ({
            let start = MessageContent::SessionStarted { rate, channels, peer };
            let a = first.applied(MessageContent::SessionEnded).applied(start);
            let b = second.applied(MessageContent::SessionEnded).applied(start);
            &&& a == b
            &&& a.session == Some((rate, channels, peer))
            &&& a.track is None
            &&& a.volume_db is None
            &&& a.progress is None
            &&& a.artwork is None
        }),
{
}

/// Each message changes what it speaks of, to what it says, and nothing else.
pub proof fn law_a_message_changes_what_it_speaks_of(
    s: SnapshotContent,
    rate: u32,
    channels: u8,
    peer: Seq<char>,
    track: TrackContent,
    db: Seq<char>,
    progress: Progress,
)
    ensures
        ({
            let after = s.applied(MessageContent::SessionStarted { rate, channels, peer });
            &&& after.session == Some((rate, channels, peer))
            &&& after.track == s.track
            &&& after.volume_db == s.volume_db
            &&& after.progress == s.progress
            &&& after.artwork == s.artwork
            &&& after.receiver == s.receiver
        }),
        ({
            let after = s.applied(MessageContent::Metadata(track));
            &&& after.track == Some(track)
            &&& after.session == s.session
            &&& after.volume_db == s.volume_db
            &&& after.progress == s.progress
            &&& after.artwork == s.artwork
            &&& after.receiver == s.receiver
        }),
        ({
            let after = s.applied(MessageContent::Volume { db });
            &&& after.volume_db == Some(db)
            &&& after.session == s.session
            &&& after.track == s.track
            &&& after.progress == s.progress
            &&& after.artwork == s.artwork
            &&& after.receiver == s.receiver
        }),
        ({
            let after = s.applied(MessageContent::Progress(progress));
            &&& after.progress == Some(progress)
            &&& after.session == s.session
            &&& after.track == s.track
            &&& after.volume_db == s.volume_db
            &&& after.artwork == s.artwork
            &&& after.receiver == s.receiver
        }),
        ({
            let after = s.applied(MessageContent::Flushed);
            &&& after.progress is None
            &&& after.session == s.session
            &&& after.track == s.track
            &&& after.volume_db == s.volume_db
            &&& after.artwork == s.artwork
            &&& after.receiver == s.receiver
        }),
{
}

/// Art replaces the art that was known; empty art clears it. Nothing else
/// changes.
pub proof fn law_empty_artwork_clears_the_art(
    s: SnapshotContent,
    content_type: Seq<char>,
    data_base64: Seq<char>,
)
    ensures
        ({
            let after = s.applied(MessageContent::Artwork { content_type, data_base64 });
            &&& data_base64.len() > 0 ==> after.artwork == Some((content_type, data_base64))
            &&& data_base64.len() == 0 ==> after.artwork is None
            &&& after.session == s.session
            &&& after.track == s.track
            &&& after.volume_db == s.volume_db
            &&& after.progress == s.progress
            &&& after.receiver == s.receiver
        }),
{
}

/// The snapshot a dashboard is sent tells what the messages before it told, one
/// by one: knowing is folding in each as it comes.
pub proof fn law_messages_are_taken_in_order(
    s: SnapshotContent,
    messages: Seq<MessageContent>,
    message: MessageContent,
)
    ensures
        s.applied_all(Seq::empty()) == s,
        s.applied_all(messages.push(message)) == s.applied_all(messages).applied(message),
{
    assert(messages.push(message).drop_last() =~= messages);
}

/// An event is told as it happened: the stream's format and sender, the track's
/// texts, the volume's text; times in whole milliseconds of a million
/// nanoseconds each; an image as its base64, and no image as no text.
pub proof fn law_events_are_told_as_they_happened(
    rate: u32,
    channels: u8,
    peer: Seq<char>,
    title: Option<Seq<char>>,
    artist: Option<Seq<char>>,
    album: Option<Seq<char>>,
    db: Seq<char>,
    content_type: Seq<char>,
    data: Seq<u8>,
)
    ensures
        message_for(EventContent::SessionStarted { rate, channels, peer })
            == (MessageContent::SessionStarted { rate, channels, peer }),
        ({
            let told = message_for(EventContent::Metadata { title, artist, album });
            told is Metadata && told->Metadata_0.title == title && told->Metadata_0.artist
                == artist && told->Metadata_0.album == album
        }),
        message_for(EventContent::Volume { db }) == (MessageContent::Volume { db }),
        data.len() == 0 ==> message_for(EventContent::Artwork { content_type, data })
            == (MessageContent::Artwork { content_type, data_base64: Seq::empty() }),
        data.len() > 0 ==> message_for(EventContent::Artwork { content_type, data })
            == (MessageContent::Artwork { content_type, data_base64: crypto::base64_padded(data) }),
        message_for(EventContent::Flushed) is Flushed,
        message_for(EventContent::SessionEnded) is SessionEnded,
{
}

} // verus!

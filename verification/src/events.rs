//! Session events delivered to the host.
//!
//! Wire concepts (RTSP, SDP, RTP, sequence numbers) never appear here.

use vstd::prelude::*;

use crate::text;
use crate::time::Duration;

verus! {

/// What the host needs to know about the streaming session.
#[non_exhaustive]
#[derive(Debug, Clone, PartialEq)]
pub enum Event {
    /// `SETUP` completed; a sink is about to be created and used.
    SessionStarted {
        /// Sample rate in Hz (44100 for every stock sender).
        rate: u32,
        /// Channel count (2 for every stock sender).
        channels: u8,
        /// The address that the sender connected from.
        peer: String,
    },
    /// `SET_PARAMETER volume`, in AirPlay dB (0 = full, -144 = mute). The
    /// library does not apply gain: the host maps this onto its own volume
    /// model.
    Volume {
        /// The AirPlay volume in dB, as the text of a floating-point number.
        db: String,
    },
    /// Track metadata. A complete statement about the current track, not a
    /// delta: fields that the sender did not give are `None` and replace the
    /// previous value. Delivered only inside a session.
    Metadata {
        title: Option<String>,
        artist: Option<String>,
        album: Option<String>,
    },
    /// Cover art, exactly as sent. Empty `data` means that the sender cleared
    /// it. Delivered only inside a session.
    Artwork {
        /// The image media type as sent (`image/none` accompanies a clear).
        content_type: String,
        /// The image bytes.
        data: Vec<u8>,
    },
    /// Playback position. Delivered only inside a session.
    Progress {
        /// How far into the track playback is.
        elapsed: Duration,
        /// The track's length; zero when it has no known end.
        duration: Duration,
    },
    /// `FLUSH` (seek or stop from the sender). Jitter buffer, prebuffer and sink
    /// have already been flushed.
    Flushed,
    /// `TEARDOWN`, or the control connection closed.
    SessionEnded,
}

/// What an event says, as a mathematical value.
pub enum EventContent {
    SessionStarted { rate: u32, channels: u8, peer: Seq<char> },
    Volume { db: Seq<char> },
    Metadata { title: Option<Seq<char>>, artist: Option<Seq<char>>, album: Option<Seq<char>> },
    Artwork { content_type: Seq<char>, data: Seq<u8> },
    Progress { elapsed: int, duration: int },
    Flushed,
    SessionEnded,
}

impl View for Event {
    type V = EventContent;

    open spec fn view(&self) -> EventContent {
        match *self {
            Event::SessionStarted { rate, channels, peer } => EventContent::SessionStarted {
                rate,
                channels,
                peer: peer@,
            },
            Event::Volume { db } => EventContent::Volume { db: db@ },
            Event::Metadata { title, artist, album } => EventContent::Metadata {
                title: text::optional_text(title),
                artist: text::optional_text(artist),
                album: text::optional_text(album),
            },
            Event::Artwork { content_type, data } => EventContent::Artwork {
                content_type: content_type@,
                data: data@,
            },
            Event::Progress { elapsed, duration } => EventContent::Progress {
                elapsed: elapsed@,
                duration: duration@,
            },
            Event::Flushed => EventContent::Flushed,
            Event::SessionEnded => EventContent::SessionEnded,
        }
    }
}

/// What some events say.
pub open spec fn told(events: Seq<Event>) -> Seq<EventContent> {
    events.map_values(|e: Event| e@)
}

/// Whether an event may be reported while a session is running, or is not
/// (`streaming`), and whether one is running after it; `None` if it may not.
pub open spec fn follows(streaming: bool, event: EventContent) -> Option<bool> {
    match event {
        EventContent::SessionStarted { .. } => if streaming {
            None
        } else {
            Some(true)
        },
        EventContent::SessionEnded => if streaming {
            Some(false)
        } else {
            None
        },
        EventContent::Metadata { .. }
        | EventContent::Artwork { .. }
        | EventContent::Progress { .. } => if streaming {
            Some(true)
        } else {
            None
        },
        EventContent::Volume { .. } | EventContent::Flushed => Some(streaming),
    }
}

/// Whether a run of events may be reported one after another, and whether a
/// session is running after them. Track metadata, artwork and positions come
/// only inside a session, and a session ends, once, before the next one starts.
pub open spec fn trace(streaming: bool, events: Seq<EventContent>) -> Option<bool>
    decreases events.len(),
{
    if events.len() == 0 {
        Some(streaming)
    } else {
        match trace(streaming, events.drop_last()) {
            None => None,
            Some(running) => follows(running, events.last()),
        }
    }
}

/// Runs of events that may be reported one after another make one that may.
pub proof fn law_traces_compose(
    streaming: bool,
    a: Seq<EventContent>,
    between: bool,
    b: Seq<EventContent>,
)
    requires
        trace(streaming, a) == Some(between),
    ensures
        trace(streaming, a + b) == trace(between, b),
    decreases b.len(),
{
    if b.len() == 0 {
        assert(a + b =~= a);
    } else {
        law_traces_compose(streaming, a, between, b.drop_last());
        assert((a + b).drop_last() =~= a + b.drop_last());
        assert((a + b).last() == b.last());
    }
}

/// How many sessions a run of events starts.
pub open spec fn starts(events: Seq<EventContent>) -> nat
    decreases events.len(),
{
    if events.len() == 0 {
        0
    } else {
        starts(events.drop_last()) + if events.last() is SessionStarted {
            1nat
        } else {
            0
        }
    }
}

/// How many sessions a run of events ends.
pub open spec fn ends(events: Seq<EventContent>) -> nat
    decreases events.len(),
{
    if events.len() == 0 {
        0
    } else {
        ends(events.drop_last()) + if events.last() is SessionEnded {
            1nat
        } else {
            0
        }
    }
}

/// How many flushes a run of events tells of.
pub open spec fn flushes(events: Seq<EventContent>) -> nat
    decreases events.len(),
{
    if events.len() == 0 {
        0
    } else {
        flushes(events.drop_last()) + if events.last() is Flushed {
            1nat
        } else {
            0
        }
    }
}

/// Two runs of events tell of as many flushes as both together.
pub proof fn lemma_flushes_add(a: Seq<EventContent>, b: Seq<EventContent>)
    ensures
        flushes(a + b) == flushes(a) + flushes(b),
    decreases b.len(),
{
    if b.len() == 0 {
        assert(a + b =~= a);
    } else {
        lemma_flushes_add(a, b.drop_last());
        assert((a + b).drop_last() =~= a + b.drop_last());
        assert((a + b).last() == b.last());
    }
}

/// Over a run of events that is in order from the beginning, metadata, artwork
/// and positions lie between the start of a session and its end: of what came
/// before, one more session has started than ended.
pub proof fn law_tracks_lie_inside_sessions(events: Seq<EventContent>, i: int)
    requires
        trace(false, events) is Some,
        0 <= i < events.len(),
        events[i] is Metadata || events[i] is Artwork || events[i] is Progress,
    ensures
        trace(false, events.take(i)) == Some(true),
        starts(events.take(i)) == ends(events.take(i)) + 1,
    decreases events.len(),
{
    let before = events.drop_last();
    if i == events.len() - 1 {
        assert(events.take(i) =~= before);
        assert(follows(trace(false, before)->0, events[i]) is Some);
        law_starts_and_ends_match(before, true);
    } else {
        law_tracks_lie_inside_sessions(before, i);
        assert(before.take(i) =~= events.take(i));
    }
}

/// Over a run of events that is in order from the beginning, every session that
/// started has ended, but for the one that is still running.
pub proof fn law_starts_and_ends_match(events: Seq<EventContent>, running: bool)
    requires
        trace(false, events) == Some(running),
    ensures
        starts(events) == ends(events) + if running {
            1int
        } else {
            0
        },
    decreases events.len(),
{
    if events.len() > 0 {
        law_starts_and_ends_match(
            events.drop_last(),
            trace(false, events.drop_last())->0,
        );
    }
}

/// What may come when: a start where no session runs, which then runs; an end
/// where one does, which then does not; tracks, art and positions only inside a
/// session; volumes and flushes anywhere, changing nothing.
pub proof fn law_what_may_follow(event: EventContent)
    ensures
        event is SessionStarted ==> follows(false, event) == Some(true) && follows(true, event)
            is None,
        event is SessionEnded ==> follows(true, event) == Some(false) && follows(false, event)
            is None,
        event is Metadata || event is Artwork || event is Progress ==> follows(true, event) == Some(
            true,
        ) && follows(false, event) is None,
        event is Volume || event is Flushed ==> follows(true, event) == Some(true) && follows(
            false,
            event,
        ) == Some(false),
{
}

/// A trace goes on from where it is by what may follow, and once it is broken it
/// stays broken.
pub proof fn law_a_trace_goes_on(streaming: bool, events: Seq<EventContent>, event: EventContent)
    ensures
        trace(streaming, Seq::empty()) == Some(streaming),
        trace(streaming, events) is None ==> trace(streaming, events.push(event)) is None,
        trace(streaming, events) is Some ==> trace(streaming, events.push(event)) == follows(
            trace(streaming, events)->0,
            event,
        ),
        starts(events.push(event)) == starts(events) + if event is SessionStarted {
            1int
        } else {
            0
        },
        ends(events.push(event)) == ends(events) + if event is SessionEnded {
            1int
        } else {
            0
        },
        flushes(events.push(event)) == flushes(events) + if event is Flushed {
            1int
        } else {
            0
        },
{
    assert(events.push(event).drop_last() =~= events);
}

/// An event says what it holds, text by text and number by number.
pub proof fn law_an_event_says_what_it_holds(event: Event)
    ensures
        event matches Event::SessionStarted { rate, channels, peer } ==> event@
            == (EventContent::SessionStarted { rate, channels, peer: peer@ }),
        event matches Event::Volume { db } ==> event@ == (EventContent::Volume { db: db@ }),
        event matches Event::Artwork { content_type, data } ==> event@ == (EventContent::Artwork {
            content_type: content_type@,
            data: data@,
        }),
        event matches Event::Progress { elapsed, duration } ==> event@ == (EventContent::Progress {
            elapsed: elapsed@,
            duration: duration@,
        }),
        event is Flushed ==> event@ is Flushed,
        event is SessionEnded ==> event@ is SessionEnded,
{
}

} // verus!

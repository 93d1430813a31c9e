//! A full-screen now-playing display: what it shows, and where.
//!
//! The receiver's events are the whole data model. What the screen looks like
//! is decided here; drawing it is the host's.

use ratatui::layout::{Constraint, Layout};
use vstd::prelude::*;

use crate::events::{Event, EventContent};
use crate::number;
use crate::number::push_decimal;
use crate::text::copy_text;
use crate::text;
use crate::time::Duration;

verus! {

/// How often the screen redraws while a track plays, in nanoseconds, so that
/// the clock advances between positions.
pub const TICK_NS: u64 = 500_000_000;

/// The stream's format and where it came from.
struct SessionInfo {
    rate: u32,
    channels: u8,
    peer: String,
}

/// The last position that was reported, and when.
#[derive(Clone, Copy)]
struct Reported {
    elapsed: Duration,
    duration: Duration,
    at_ns: u64,
}

/// Cover art exactly as the sender delivered it.
#[derive(Debug, PartialEq)]
pub struct Artwork {
    pub content_type: String,
    pub data: Vec<u8>,
}

/// Everything the screen shows, updated from the events.
pub struct NowPlaying {
    name: String,
    session: Option<SessionInfo>,
    title: Option<String>,
    artist: Option<String>,
    album: Option<String>,
    volume_db: Option<String>,
    progress: Option<Reported>,
    artwork: Option<Artwork>,
}

/// What the screen shows, as a mathematical value.
pub struct Screen {
    /// The receiver's own name.
    pub name: Seq<char>,
    /// The stream's rate, channels and peer.
    pub session: Option<(u32, u8, Seq<char>)>,
    pub title: Option<Seq<char>>,
    pub artist: Option<Seq<char>>,
    pub album: Option<Seq<char>>,
    /// The volume, as the text of a number.
    pub volume_db: Option<Seq<char>>,
    /// The last position: elapsed and whole, in nanoseconds, and when it was
    /// reported.
    pub progress: Option<(int, int, u64)>,
    /// The art's media type and bytes.
    pub artwork: Option<(Seq<char>, Seq<u8>)>,
}

impl View for NowPlaying {
    type V = Screen;

    closed spec fn view(&self) -> Screen {
        Screen {
            name: self.name@,
            session: match self.session {
                Some(s) => Some((s.rate, s.channels, s.peer@)),
                None => None,
            },
            title: text::optional_text(self.title),
            artist: text::optional_text(self.artist),
            album: text::optional_text(self.album),
            volume_db: text::optional_text(self.volume_db),
            progress: match self.progress {
                Some(p) => Some((p.elapsed@, p.duration@, p.at_ns)),
                None => None,
            },
            artwork: match self.artwork {
                Some(art) => Some((art.content_type@, art.data@)),
                None => None,
            },
        }
    }
}

/// What the screen shows of a receiver that has done nothing.
pub open spec fn blank(name: Seq<char>) -> Screen {
    Screen {
        name,
        session: None,
        title: None,
        artist: None,
        album: None,
        volume_db: None,
        progress: None,
        artwork: None,
    }
}

/// How a line is drawn.
#[derive(Debug, Clone, Copy, PartialEq, Eq, Structural)]
pub enum Style {
    Plain,
    Bold,
    Dim,
}

/// A line of text.
#[derive(Debug, PartialEq)]
pub struct Line {
    pub text: String,
    pub style: Style,
}

/// The text and style of some lines.
pub open spec fn drawn(lines: Seq<Line>) -> Seq<(Seq<char>, Style)> {
    lines.map_values(|l: Line| (l.text@, l.style))
}

/// A line with nothing on it.
pub open spec fn gap() -> (Seq<char>, Style) {
    (Seq::empty(), Style::Plain)
}

/// An optional text as lines in a style.
pub open spec fn line_if_any(text: Option<Seq<char>>, style: Style) -> Seq<(Seq<char>, Style)> {
    match text {
        Some(text) => seq![(text, style)],
        None => Seq::empty(),
    }
}

impl Screen {
    /// The screen after an event that was heard at `now`. A seek invalidates
    /// the position; the end of a session leaves the volume and the name.
    pub open spec fn applied(self, event: EventContent, now: u64) -> Screen {
        match event {
            EventContent::SessionStarted { rate, channels, peer } => Screen {
                session: Some((rate, channels, peer)),
                ..self
            },
            EventContent::Metadata { title, artist, album } => Screen {
                title,
                artist,
                album,
                ..self
            },
            EventContent::Artwork { content_type, data } => Screen {
                artwork: if data.len() == 0 {
                    None
                } else {
                    Some((content_type, data))
                },
                ..self
            },
            EventContent::Volume { db } => Screen { volume_db: Some(db), ..self },
            EventContent::Progress { elapsed, duration } => Screen {
                progress: Some((elapsed, duration, now)),
                ..self
            },
            EventContent::Flushed => Screen { progress: None, ..self },
            EventContent::SessionEnded => Screen {
                session: None,
                title: None,
                artist: None,
                album: None,
                progress: None,
                artwork: None,
                ..self
            },
        }
    }

    /// Position within the track at `now`: the last report advanced by the time
    /// since, never past the end of the track. A stream with no known end has
    /// none.
    pub open spec fn position(self, now: u64) -> Option<(int, int)> {
        match self.progress {
            None => None,
            Some((elapsed, duration, at)) => if duration == 0 {
                None
            } else {
                let advanced = elapsed + since(at, now);
                Some(
                    (
                        if advanced < duration {
                            advanced
                        } else {
                            duration
                        },
                        duration,
                    ),
                )
            },
        }
    }

    /// `Living Room . 192.168.1.42 . 44100 Hz 2ch . -12.5 dB`, with middle dots
    /// between the parts; the volume comes ready to show.
    pub open spec fn status(self, volume: Option<Seq<char>>) -> Seq<char> {
        self.name + (match self.session {
            Some((rate, channels, peer)) => dot() + peer + dot() + number::decimal(rate as nat)
                + " Hz "@ + number::decimal(channels as nat) + "ch"@,
            None => Seq::empty(),
        }) + (match volume {
            Some(volume) => dot() + volume,
            None => Seq::empty(),
        })
    }

    /// The lines about the position.
    pub open spec fn clock_lines(self, width: u16, now: u64) -> Seq<(Seq<char>, Style)> {
        match self.position(now) {
            None => Seq::empty(),
            Some((elapsed, duration)) => seq![
                gap(),
                (bar_text(elapsed, duration, bar_columns(width)), Style::Plain),
                (clock_text(elapsed) + " / "@ + clock_text(duration), Style::Dim),
            ],
        }
    }

    /// The lines on the screen: the track (or that nothing plays), the clock,
    /// and the status.
    pub open spec fn lines(self, width: u16, now: u64, volume: Option<Seq<char>>) -> Seq<
        (Seq<char>, Style),
    > {
        if self.session is None {
            seq![
                (self.name, Style::Bold),
                gap(),
                ("waiting for a sender\u{2026}"@, Style::Dim),
            ]
        } else {
            seq![
                (
                    match self.title {
                        Some(title) => title,
                        None => "Unknown track"@,
                    },
                    Style::Bold,
                ),
            ] + line_if_any(self.artist, Style::Plain) + line_if_any(self.album, Style::Dim)
                + self.clock_lines(width, now) + seq![gap(), (self.status(volume), Style::Dim)]
        }
    }
}

/// A middle dot with spaces around it.
pub open spec fn dot() -> Seq<char> {
    " \u{b7} "@
}

/// The time from `at` to `now`; none if the clock went back.
pub open spec fn since(at: u64, now: u64) -> int {
    if now >= at {
        now - at
    } else {
        0
    }
}

/// Progress bar width: a third of the screen, within sane bounds.
pub open spec fn bar_columns(screen: u16) -> int {
    let third = screen as int / 3;
    if third < 10 {
        10
    } else if third > 40 {
        40
    } else {
        third
    }
}

/// Progress bar width.
pub fn bar_width(screen: u16) -> (width: u16)
    ensures
        width == bar_columns(screen),
{
    let third: u16 = screen / 3;
    if third < 10 {
        10
    } else if third > 40 {
        40
    } else {
        third
    }
}

/// How much of a bar is filled: proportionally to `elapsed / duration`, to the
/// nearest column (halves up), and never more than all of it.
pub open spec fn filled_columns(elapsed: int, duration: int, width: int) -> int {
    if duration == 0 {
        0
    } else if elapsed >= duration {
        width
    } else {
        (2 * elapsed * width + duration) / (2 * duration)
    }
}

/// A filled column and an empty one, so many of each.
pub open spec fn bar_of(filled: int, empty: int) -> Seq<char> {
    Seq::new(filled as nat, |i: int| '\u{2501}') + Seq::new(empty as nat, |i: int| '\u{2500}')
}

/// A bar of that width, filled proportionally.
pub open spec fn bar_text(elapsed: int, duration: int, width: int) -> Seq<char> {
    let filled = filled_columns(elapsed, duration, width);
    bar_of(filled, width - filled)
}

proof fn lemma_filled_fits(elapsed: int, duration: int, width: int)
    requires
        0 <= elapsed,
        0 <= duration,
        0 <= width,
    ensures
        0 <= filled_columns(elapsed, duration, width) <= width,
{
    if duration != 0 && elapsed < duration {
        let a = 2 * elapsed * width + duration;
        let b = 2 * duration;
        assert(0 <= a && a <= b * width + duration) by (nonlinear_arith)
            requires
                a == 2 * elapsed * width + duration,
                b == 2 * duration,
                0 <= elapsed < duration,
                0 <= width,
        ;
        assert(a / b >= 0) by (nonlinear_arith)
            requires
                a >= 0,
                b > 0,
        ;
        assert(a / b <= width) by (nonlinear_arith)
            requires
                a <= b * width + duration,
                b == 2 * duration,
                duration > 0,
        ;
    }
}

/// A bar filled proportionally to `elapsed / duration`.
pub fn progress_bar(elapsed: Duration, duration: Duration, width: u16) -> (bar: String)
    ensures
        bar@ == bar_text(elapsed@, duration@, width as int),
        bar@.len() == width,
{
    let e: u128 = elapsed.as_nanos();
    let d: u128 = duration.as_nanos();
    let w: u128 = width as u128;
    proof {
        lemma_filled_fits(elapsed@, duration@, width as int);
    }
    let filled: u128 = if d == 0 {
        0
    } else if e >= d {
        w
    } else {
        assert(2 * e * w <= 2 * 0x1_0000_0000_0000_0000 * 1_000_000_000 * 0x1_0000)
            by (nonlinear_arith)
            requires
                e < 0x1_0000_0000_0000_0000 * 1_000_000_000,
                w < 0x1_0000,
        ;
        assert(2 * e >= 0 && 2 * e <= 2 * 0x1_0000_0000_0000_0000 * 1_000_000_000);
        (2 * e * w + d) / (2 * d)
    };
    assert(filled == filled_columns(elapsed@, duration@, width as int));
    let mut bar = String::new();
    let mut i: u16 = 0;
    assert(bar@ =~= bar_of(0, 0));
    while i < width
        invariant
            i <= width,
            filled <= width,
            w == width,
            bar@ == (if i <= filled {
                bar_of(i as int, 0)
            } else {
                bar_of(filled as int, i - filled)
            }),
        decreases width - i,
    {
        let ghost was = bar@;
        if (i as u128) < filled {
            bar.push('\u{2501}');
            assert(bar@ =~= bar_of(i + 1, 0));
        } else {
            bar.push('\u{2500}');
            assert(bar@ =~= bar_of(filled as int, i + 1 - filled));
        }
        i += 1;
    }
    bar
}

/// A number of at most two digits, in two digits.
pub open spec fn two_digits(n: int) -> Seq<char> {
    seq![number::decimal_digit(n / 10), number::decimal_digit(n % 10)]
}

/// `1:23`, or `1:02:03` once past an hour.
pub open spec fn clock_text(nanos: int) -> Seq<char> {
    let secs = nanos / 1_000_000_000;
    let h = secs / 3600;
    let m = secs % 3600 / 60;
    let s = secs % 60;
    if h > 0 {
        number::decimal(h as nat) + ":"@ + two_digits(m) + ":"@ + two_digits(s)
    } else {
        number::decimal(m as nat) + ":"@ + two_digits(s)
    }
}

fn push_two_digits(out: &mut String, n: u64)
    requires
        n < 100,
    ensures
        final(out)@ == old(out)@ + two_digits(n as int),
{
    out.push(((n / 10) as u8 + 48) as char);
    out.push(((n % 10) as u8 + 48) as char);
    assert(out@ =~= old(out)@ + two_digits(n as int));
}

/// A span of time as a clock shows it.
pub fn clock(d: Duration) -> (text: String)
    ensures
        text@ == clock_text(d@),
{
    let secs: u64 = d.as_secs();
    let h: u64 = secs / 3600;
    let m: u64 = secs % 3600 / 60;
    let s: u64 = secs % 60;
    let mut text = String::new();
    if h > 0 {
        push_decimal(&mut text, h);
        text.append(":");
        push_two_digits(&mut text, m);
    } else {
        push_decimal(&mut text, m);
    }
    text.append(":");
    push_two_digits(&mut text, s);
    assert(text@ =~= clock_text(d@));
    text
}

impl NowPlaying {
    /// A screen for the receiver of that name.
    pub fn new(name: String) -> (state: NowPlaying)
        ensures
            state@ == blank(name@),
    {
        NowPlaying {
            name,
            session: None,
            title: None,
            artist: None,
            album: None,
            volume_db: None,
            progress: None,
            artwork: None,
        }
    }

    /// Fold one event, heard at `now`, into the display state.
    pub fn apply(&mut self, event: Event, now: u64)
        ensures
            final(self)@ == old(self)@.applied(event@, now),
    {
        match event {
            Event::SessionStarted { rate, channels, peer } => {
                self.session = Some(SessionInfo { rate, channels, peer });
            },
            Event::Metadata { title, artist, album } => {
                self.title = title;
                self.artist = artist;
                self.album = album;
            },
            Event::Artwork { content_type, data } => {
                self.artwork = if data.len() == 0 {
                    None
                } else {
                    Some(Artwork { content_type, data })
                };
            },
            Event::Volume { db } => {
                self.volume_db = Some(db);
            },
            Event::Progress { elapsed, duration } => {
                self.progress = Some(Reported { elapsed, duration, at_ns: now });
            },
            Event::Flushed => {
                self.progress = None;
            },
            Event::SessionEnded => {
                self.session = None;
                self.title = None;
                self.artist = None;
                self.album = None;
                self.progress = None;
                self.artwork = None;
            },
        }
    }

    /// Whether a sender streams.
    pub fn playing(&self) -> (playing: bool)
        ensures
            playing == (self@.session is Some),
    {
        self.session.is_some()
    }

    /// The volume, as the text of a number.
    pub fn volume_db(&self) -> (db: Option<String>)
        ensures
            text::optional_text(db) == self@.volume_db,
    {
        copy_text(&self.volume_db)
    }

    /// The cover art, if there is any.
    pub fn artwork(&self) -> (artwork: Option<&Artwork>)
        ensures
            artwork is Some <==> self@.artwork is Some,
            artwork matches Some(art) ==> (art.content_type@, art.data@) == self@.artwork->0,
    {
        match &self.artwork {
            Some(art) => Some(art),
            None => None,
        }
    }

    /// Position within the track at `now`.
    pub fn position(&self, now: u64) -> (span: Option<(Duration, Duration)>)
        ensures
            span is Some <==> self@.position(now) is Some,
            span matches Some((elapsed, duration)) ==> (elapsed@, duration@) == self@.position(
                now,
            )->0,
    {
        let p: Reported = match &self.progress {
            Some(p) => *p,
            None => {
                return None;
            },
        };
        if p.duration.is_zero() {
            return None;
        }
        let passed: u64 = if now >= p.at_ns {
            now - p.at_ns
        } else {
            0
        };
        let advanced: u128 = p.elapsed.as_nanos() + passed as u128;
        let elapsed = if advanced < p.duration.as_nanos() {
            Duration::from_nanos_wide(advanced)
        } else {
            p.duration
        };
        Some((elapsed, p.duration))
    }

    /// The status line; the volume comes ready to show.
    pub fn status(&self, volume: Option<&str>) -> (text: String)
        ensures
            text@ == self@.status(
                match volume {
                    Some(volume) => Some(volume@),
                    None => None,
                },
            ),
    {
        let mut text = self.name.clone();
        if let Some(session) = &self.session {
            text.append(" \u{b7} ");
            text.append(session.peer.as_str());
            text.append(" \u{b7} ");
            push_decimal(&mut text, session.rate as u64);
            text.append(" Hz ");
            push_decimal(&mut text, session.channels as u64);
            text.append("ch");
        }
        if let Some(volume) = volume {
            text.append(" \u{b7} ");
            text.append(volume);
        }
        assert(text@ =~= self@.status(
            match volume {
                Some(volume) => Some(volume@),
                None => None,
            },
        ));
        text
    }

    /// The centered block of text: title, artist and album (or the idle
    /// message), the progress clock, and the status line.
    pub fn lines(&self, width: u16, now: u64, volume: Option<&str>) -> (lines: Vec<Line>)
        ensures
            drawn(lines@) == self@.lines(
                width,
                now,
                match volume {
                    Some(volume) => Some(volume@),
                    None => None,
                },
            ),
            lines@.len() <= 8,
    {
        let ghost shown = match volume {
            Some(volume) => Some(volume@),
            None => None,
        };
        let mut lines: Vec<Line> = Vec::new();
        if !self.playing() {
            lines.push(Line { text: self.name.clone(), style: Style::Bold });
            lines.push(blank_line());
            lines.push(
                Line { text: "waiting for a sender\u{2026}".to_owned(), style: Style::Dim },
            );
            assert(drawn(lines@) =~= self@.lines(width, now, shown));
            return lines;
        }
        let title = match &self.title {
            Some(title) => title.clone(),
            None => "Unknown track".to_owned(),
        };
        lines.push(Line { text: title, style: Style::Bold });
        if let Some(artist) = &self.artist {
            lines.push(Line { text: artist.clone(), style: Style::Plain });
        }
        if let Some(album) = &self.album {
            lines.push(Line { text: album.clone(), style: Style::Dim });
        }
        let ghost track = drawn(lines@);
        assert(track =~= seq![
            (
                match self@.title {
                    Some(title) => title,
                    None => "Unknown track"@,
                },
                Style::Bold,
            ),
        ] + line_if_any(self@.artist, Style::Plain) + line_if_any(self@.album, Style::Dim));
        if let Some((elapsed, duration)) = self.position(now) {
            lines.push(blank_line());
            lines.push(
                Line {
                    text: progress_bar(elapsed, duration, bar_width(width)),
                    style: Style::Plain,
                },
            );
            let mut text = clock(elapsed);
            text.append(" / ");
            text.append(clock(duration).as_str());
            lines.push(Line { text, style: Style::Dim });
        }
        assert(drawn(lines@) =~= track + self@.clock_lines(width, now));
        lines.push(blank_line());
        lines.push(Line { text: self.status(volume), style: Style::Dim });
        assert(drawn(lines@) =~= self@.lines(width, now, shown));
        lines
    }
}

fn blank_line() -> (line: Line)
    ensures
        (line.text@, line.style) == gap(),
{
    Line { text: String::new(), style: Style::Plain }
}

/// The clock never runs past the end of the track, and never backward while
/// nothing new is heard.
pub proof fn law_the_clock_stays_within_the_track(s: Screen, now: u64, later: u64)
    requires
        s.progress matches Some((elapsed, duration, at)) ==> 0 <= elapsed && 0 <= duration,
        now <= later,
    ensures
        s.position(now) matches Some((elapsed, duration)) ==> 0 <= elapsed <= duration,
        s.position(now) is Some <==> s.position(later) is Some,
        s.position(now) matches Some((elapsed, duration)) ==> elapsed <= (s.position(later)->0).0,
{
}

/// The end of a session returns the screen to idle, whatever it showed.
pub proof fn law_a_session_end_returns_to_idle(
    s: Screen,
    now: u64,
    width: u16,
    volume: Option<Seq<char>>,
)
    ensures
        s.applied(EventContent::SessionEnded, now).lines(width, now, volume) == blank(
            s.name,
        ).lines(width, now, volume),
{
}

/// A place on the screen, in cells.
#[derive(Debug, Clone, Copy, PartialEq, Eq, Structural)]
pub struct Rect {
    pub x: u16,
    pub y: u16,
    pub width: u16,
    pub height: u16,
}

impl Rect {
    /// It ends within the coordinates.
    pub open spec fn wf(self) -> bool {
        self.x + self.width <= u16::MAX && self.y + self.height <= u16::MAX
    }
}

/// The first row of an area, if one is wanted and there is one, and the rest.
pub open spec fn top_row_and_rest(area: Rect, wanted: u16) -> (Rect, Rect) {
    let first: u16 = if area.height == 0 {
        0
    } else {
        wanted
    };
    (
        Rect { height: first, ..area },
        Rect { y: (area.y + first) as u16, height: (area.height - first) as u16, ..area },
    )
}

/// `ratatui::layout::Layout::vertical` with a fill, rows of these two heights
/// and another fill, and `Layout::areas`: the two rows in the middle. Each
/// spans the area from side to side and stays inside it. Where both fit, each
/// has its height, and the second follows the first without a gap. Where the
/// second alone would take the whole area and the first is a single row or
/// none, the first keeps its row at the top and the second gets the rest. How
/// other rows share an area that is too small is left unsaid: the crate calls it
/// indeterminate, and its solver picks among equal solutions in the order of a
/// hash map.
#[verifier::external_body]
fn split_rows(area: Rect, art_rows: u16, text_rows: u16) -> (rows: (Rect, Rect))
    requires
        area.wf(),
    ensures
        rows.0.x == area.x && rows.0.width == area.width,
        rows.1.x == area.x && rows.1.width == area.width,
        area.y <= rows.0.y && rows.0.y + rows.0.height <= area.y + area.height,
        area.y <= rows.1.y && rows.1.y + rows.1.height <= area.y + area.height,
        art_rows + text_rows <= area.height ==> rows.0.height == art_rows && rows.1.height
            == text_rows && rows.1.y == rows.0.y + art_rows,
        art_rows <= 1 && text_rows >= area.height ==> rows == top_row_and_rest(area, art_rows),
{
    let [_, top, text, _] = Layout::vertical([
        Constraint::Fill(1),
        Constraint::Length(art_rows),
        Constraint::Length(text_rows),
        Constraint::Fill(1),
    ])
    .areas(ratatui::layout::Rect { x: area.x, y: area.y, width: area.width, height: area.height });
    (
        Rect { x: top.x, y: top.y, width: top.width, height: top.height },
        Rect { x: text.x, y: text.y, width: text.width, height: text.height },
    )
}

/// The height of the artwork box: half the screen's width, at most 20 rows, and
/// no more than the text leaves; none without artwork.
pub open spec fn art_rows(area: Rect, text_lines: u16, with_artwork: bool) -> int {
    if !with_artwork {
        0
    } else {
        let by_width = if area.width as int / 2 < 20 {
            area.width as int / 2
        } else {
            20
        };
        let spare = if area.height < text_lines + 3 {
            0
        } else {
            area.height - (text_lines + 3)
        };
        if by_width < spare {
            by_width
        } else {
            spare
        }
    }
}

/// The block of artwork and text in the middle of the area, or all of it if the
/// block does not fit.
pub open spec fn centered(area: Rect, height: int) -> Rect {
    if height >= area.height {
        area
    } else {
        Rect {
            y: (area.y + (area.height - height) / 2) as u16,
            height: height as u16,
            ..area
        }
    }
}

/// Vertically center a block of `height` rows within `area` (or use all of it
/// when the block does not fit).
pub fn center_block(area: Rect, height: u16) -> (block: Rect)
    requires
        area.wf(),
    ensures
        block == centered(area, height as int),
        block.wf(),
{
    if height >= area.height {
        return area;
    }
    Rect {
        x: area.x,
        y: area.y + (area.height - height) / 2,
        width: area.width,
        height,
    }
}

/// The artwork box in its rows: centered over its own two-cells-per-row aspect.
pub open spec fn boxed(top: Rect, height: int) -> Rect {
    let width = 2 * height;
    Rect {
        x: if top.width < width {
            top.x
        } else {
            (top.x + (top.width - width) / 2) as u16
        },
        y: top.y,
        width: if top.width < width {
            top.width
        } else {
            width as u16
        },
        height: height as u16,
    }
}

/// The artwork box of a height in its rows.
pub fn artwork_box(top: Rect, height: u16) -> (artwork: Rect)
    requires
        top.x + top.width <= u16::MAX,
        height <= u16::MAX / 2,
    ensures
        artwork == boxed(top, height as int),
{
    let width: u16 = height * 2;
    if top.width < width {
        Rect { x: top.x, y: top.y, width: top.width, height }
    } else {
        Rect { x: top.x + (top.width - width) / 2, y: top.y, width, height }
    }
}

/// The height of artwork, gap and text together.
pub open spec fn block_rows(area: Rect, text_lines: u16, with_artwork: bool) -> int {
    art_rows(area, text_lines, with_artwork) + (if with_artwork {
        1int
    } else {
        0
    }) + text_lines
}

/// Where artwork and text go. On a screen that has room for both, one above the
/// other in the middle, with a row between them; on a shorter one the text gets
/// it all, but for that row where there is artwork.
pub open spec fn placed(area: Rect, text_lines: u16, with_artwork: bool) -> (Rect, Rect) {
    let rows = block_rows(area, text_lines, with_artwork);
    let block = centered(area, rows);
    let above = if rows <= area.height {
        rows - text_lines
    } else if with_artwork && area.height > 0 {
        1
    } else {
        0
    };
    (
        boxed(block, art_rows(area, text_lines, with_artwork)),
        Rect {
            y: (block.y + above) as u16,
            height: if rows <= area.height {
                text_lines
            } else {
                (area.height - above) as u16
            },
            ..block
        },
    )
}

/// Artwork that is shown sits above the text, square in pixels, and both lie on
/// the screen.
pub proof fn law_artwork_sits_above_the_text(area: Rect, text_lines: u16)
    requires
        area.wf(),
        art_rows(area, text_lines, true) > 0,
    ensures
        block_rows(area, text_lines, true) <= area.height,
        ({
            let (art, text) = placed(area, text_lines, true);
            &&& art.height == art_rows(area, text_lines, true)
            &&& art.width == 2 * art.height
            &&& area.y <= art.y && art.y + art.height < text.y
            &&& text.y + text.height <= area.y + area.height
            &&& area.x <= art.x && art.x + art.width <= area.x + area.width
        }),
{
}

/// Split the screen into an (optional) artwork box and the text block, together
/// centered vertically. The artwork box is square in *pixels*, so its height in
/// cells is half its width.
pub fn layout(area: Rect, text_lines: u16, with_artwork: bool) -> (places: (Rect, Rect))
    requires
        area.wf(),
        with_artwork ==> text_lines <= u16::MAX - 3,
    ensures
        places == placed(area, text_lines, with_artwork),
{
    let gap: u16 = if with_artwork {
        1
    } else {
        0
    };
    let art_height: u16 = if with_artwork {
        let by_width: u16 = if area.width / 2 < 20 {
            area.width / 2
        } else {
            20
        };
        let needed: u16 = text_lines + gap + 2;
        let spare: u16 = if area.height < needed {
            0
        } else {
            area.height - needed
        };
        if by_width < spare {
            by_width
        } else {
            spare
        }
    } else {
        0
    };
    let block: u16 = art_height + gap + text_lines;
    let (top, text) = split_rows(center_block(area, block), art_height + gap, text_lines);
    (artwork_box(top, art_height), text)
}

/// Why the display ended.
#[derive(Debug, Clone, Copy, PartialEq, Eq, Structural)]
pub enum Exit {
    /// The user asked to quit (`q`, `Esc`, or `Ctrl-C`), or the system did.
    Quit,
    /// The receiver is gone.
    Disconnected,
}

/// A key, as far as it matters.
#[derive(Debug, Clone, Copy, PartialEq, Eq)]
pub enum Key {
    Char(char),
    Esc,
    Other,
}

/// What woke the display up.
#[derive(Debug, Clone, Copy)]
pub enum Wake {
    /// An event of the receiver.
    Event,
    /// The receiver closed its end.
    ReceiverGone,
    /// A key; in raw mode Ctrl-C is one, not a signal.
    Key { key: Key, control: bool, press: bool },
    /// The terminal changed.
    Terminal,
    /// The terminal is gone.
    TerminalGone,
    /// The system asked it to end.
    Terminate,
    /// The clock ticked.
    Tick,
}

/// Whether a key press quits.
pub open spec fn quits(key: Key, control: bool) -> bool {
    ||| key == Key::Char('c') && control
    ||| key == Key::Char('q')
    ||| key == Key::Esc
}

/// Whether the display ends, and why; otherwise it redraws.
pub fn exit_on(wake: Wake) -> (exit: Option<Exit>)
    ensures
        exit == (match wake {
            Wake::ReceiverGone => Some(Exit::Disconnected),
            Wake::TerminalGone | Wake::Terminate => Some(Exit::Quit),
            Wake::Key { key, control, press } => if press && quits(key, control) {
                Some(Exit::Quit)
            } else {
                None
            },
            Wake::Event | Wake::Terminal | Wake::Tick => None,
        }),
{
    match wake {
        Wake::ReceiverGone => Some(Exit::Disconnected),
        Wake::TerminalGone => Some(Exit::Quit),
        Wake::Terminate => Some(Exit::Quit),
        Wake::Key { key, control, press } => {
            let quit = match key {
                Key::Char(c) => (c == 'c' && control) || c == 'q',
                Key::Esc => true,
                Key::Other => false,
            };
            if press && quit {
                Some(Exit::Quit)
            } else {
                None
            }
        },
        Wake::Event => None,
        Wake::Terminal => None,
        Wake::Tick => None,
    }
}

/// Each event changes on the screen what it speaks of, and nothing else: the end
/// of a session takes the stream, the track, the position and the art off it, and
/// leaves the name and the volume.
pub proof fn law_an_event_shows_what_it_speaks_of(
    s: Screen,
    now: u64,
    rate: u32,
    channels: u8,
    peer: Seq<char>,
    title: Option<Seq<char>>,
    artist: Option<Seq<char>>,
    album: Option<Seq<char>>,
    db: Seq<char>,
    elapsed: int,
    duration: int,
)
    ensures
        ({
            let after = s.applied(EventContent::SessionStarted { rate, channels, peer }, now);
            &&& after.session == Some((rate, channels, peer))
            &&& after == Screen { session: after.session, ..s }
        }),
        ({
            let after = s.applied(EventContent::Metadata { title, artist, album }, now);
            &&& after.title == title
            &&& after.artist == artist
            &&& after.album == album
            &&& after == Screen {
                title: after.title,
                artist: after.artist,
                album: after.album,
                ..s
            }
        }),
        ({
            let after = s.applied(EventContent::Volume { db }, now);
            &&& after.volume_db == Some(db)
            &&& after == Screen { volume_db: after.volume_db, ..s }
        }),
        ({
            let after = s.applied(EventContent::Progress { elapsed, duration }, now);
            &&& after.progress == Some((elapsed, duration, now))
            &&& after == Screen { progress: after.progress, ..s }
        }),
        ({
            let after = s.applied(EventContent::Flushed, now);
            &&& after.progress is None
            &&& after == Screen { progress: None, ..s }
        }),
        ({
            let after = s.applied(EventContent::SessionEnded, now);
            &&& after.session is None
            &&& after.title is None
            &&& after.artist is None
            &&& after.album is None
            &&& after.progress is None
            &&& after.artwork is None
            &&& after.name == s.name
            &&& after.volume_db == s.volume_db
        }),
{
}

/// New art replaces the art on the screen, and empty art takes it off.
pub proof fn law_empty_artwork_takes_the_art_off(
    s: Screen,
    now: u64,
    content_type: Seq<char>,
    data: Seq<u8>,
)
    ensures
        ({
            let after = s.applied(EventContent::Artwork { content_type, data }, now);
            &&& data.len() > 0 ==> after.artwork == Some((content_type, data))
            &&& data.len() == 0 ==> after.artwork is None
            &&& after == Screen { artwork: after.artwork, ..s }
        }),
{
}

/// Between reports the position runs on with the clock, up to the track's end; a
/// track without an end has none.
pub proof fn law_the_position_runs_on(s: Screen, elapsed: int, duration: int, at: u64, now: u64)
    requires
        s.progress == Some((elapsed, duration, at)),
        0 <= elapsed,
        0 <= duration,
    ensures
        duration > 0 && at <= now && elapsed + (now - at) <= duration ==> s.position(now) == Some(
            (elapsed + (now - at), duration),
        ),
        duration > 0 && at <= now && elapsed + (now - at) > duration ==> s.position(now) == Some(
            (duration, duration),
        ),
        duration > 0 && now < at && elapsed <= duration ==> s.position(now) == Some(
            (elapsed, duration),
        ),
        duration == 0 ==> s.position(now) is None,
{
}

/// The bar is a third of the screen wide, but at least ten columns and at most
/// forty.
pub proof fn law_the_bar_is_a_third_of_the_screen(screen: u16)
    ensures
        10 <= bar_columns(screen) <= 40,
        30 <= screen <= 120 ==> 3 * bar_columns(screen) <= screen < 3 * (bar_columns(screen) + 1),
        screen < 30 ==> bar_columns(screen) == 10,
        screen > 120 ==> bar_columns(screen) == 40,
{
}

/// As much of the bar is filled as has been played, to the nearest column: none at
/// the start, all at the end.
pub proof fn law_the_bar_fills_as_the_track_plays(elapsed: int, duration: int, width: int)
    requires
        0 <= elapsed,
        0 < duration,
        0 <= width,
    ensures
        elapsed <= duration ==> -duration <= 2 * (filled_columns(elapsed, duration, width)
            * duration - elapsed * width) <= duration,
        elapsed >= duration ==> filled_columns(elapsed, duration, width) == width,
        filled_columns(0, duration, width) == 0,
        filled_columns(elapsed, 0, width) == 0,
{
    let n = 2 * elapsed * width + duration;
    let d = 2 * duration;
    let filled = n / d;
    vstd::arithmetic::div_mod::lemma_fundamental_div_mod(n, d);
    vstd::arithmetic::div_mod::lemma_mod_bound(n, d);
    assert(d * filled == 2 * (filled * duration)) by (nonlinear_arith)
        requires
            d == 2 * duration,
    ;
    assert(2 * elapsed * width == 2 * (elapsed * width)) by (nonlinear_arith);
    assert(width * duration == duration * width) by (nonlinear_arith);
    assert(duration / d == 0) by (nonlinear_arith)
        requires
            d == 2 * duration,
            0 < duration,
    ;
    assert(2 * 0int * width == 0) by (nonlinear_arith);
    assert((2 * 0int * width + duration) / d == 0);
}

/// A bar is its filled columns, drawn heavy, and then the others, drawn light, and
/// as wide as it was asked to be.
pub proof fn law_a_bar_is_heavy_up_to_the_position(elapsed: int, duration: int, width: int)
    requires
        0 <= filled_columns(elapsed, duration, width) <= width,
    ensures
        bar_text(elapsed, duration, width).len() == width,
        forall|i: int|
            0 <= i < filled_columns(elapsed, duration, width) ==> #[trigger] bar_text(
                elapsed,
                duration,
                width,
            )[i] == '\u{2501}',
        forall|i: int|
            filled_columns(elapsed, duration, width) <= i < width ==> #[trigger] bar_text(
                elapsed,
                duration,
                width,
            )[i] == '\u{2500}',
{
}

/// A time is told in minutes and seconds, and in hours where there are any; what
/// is less than a second is left out.
pub proof fn law_times_are_told_in_hours_minutes_and_seconds(h: nat, m: nat, s: nat, rest: int)
    requires
        m < 60,
        s < 60,
        0 <= rest < 1_000_000_000,
    ensures
        ({
            let told = clock_text((h * 3600 + m * 60 + s) * 1_000_000_000 + rest);
            let seconds = seq![
                number::decimal_digit(s as int / 10),
                number::decimal_digit(s as int % 10),
            ];
            let minutes = seq![
                number::decimal_digit(m as int / 10),
                number::decimal_digit(m as int % 10),
            ];
            &&& h == 0 ==> told == number::decimal(m) + ":"@ + seconds
            &&& h > 0 ==> told == number::decimal(h) + ":"@ + minutes + ":"@ + seconds
        }),
{
    let secs = h * 3600 + m * 60 + s;
    assert((secs * 1_000_000_000 + rest) / 1_000_000_000 == secs);
    assert(secs as int / 3600 == h);
    assert(secs as int % 3600 == m * 60 + s);
    assert(secs as int % 3600 / 60 == m);
    assert(secs as int % 60 == s);
}

/// Two digits are the tens and the ones.
pub proof fn law_two_digits_are_tens_and_ones(n: int)
    requires
        0 <= n < 100,
    ensures
        two_digits(n).len() == 2,
        number::parsed_unsigned(two_digits(n), 10, 99) == Some(n),
{
    let tens = seq![number::decimal_digit(n / 10)];
    let ones = number::decimal_digit(n % 10);
    number::law_digits_are_worth_what_they_say(n / 10, ones);
    number::law_digits_are_worth_what_they_say(n % 10, ones);
    number::law_decimal_reads_back((n / 10) as nat, 99);
    assert(number::decimal((n / 10) as nat) =~= tens);
    number::law_a_number_is_read_place_by_place(tens, ones, 10, 99);
    assert(two_digits(n) =~= tens.push(ones));
    assert(tens[0] != '+');
}

/// An idle screen says the receiver's name and that it waits.
pub proof fn law_an_idle_screen_waits(
    s: Screen,
    width: u16,
    now: u64,
    volume: Option<Seq<char>>,
)
    requires
        s.session is None,
    ensures
        s.lines(width, now, volume).len() == 3,
        s.lines(width, now, volume)[0] == (s.name, Style::Bold),
        s.lines(width, now, volume)[1].0.len() == 0,
        s.lines(width, now, volume)[2] == ("waiting for a sender\u{2026}"@, Style::Dim),
{
}

/// A playing screen says the title first, or that it is unknown, then the artist
/// and the album where they are known, then how far playback is where that is
/// known, and the status last.
pub proof fn law_a_playing_screen_says_what_plays(
    s: Screen,
    width: u16,
    now: u64,
    volume: Option<Seq<char>>,
)
    requires
        s.session is Some,
    ensures
        ({
            let lines = s.lines(width, now, volume);
            let artist = if s.artist is Some {
                1int
            } else {
                0
            };
            let album = if s.album is Some {
                1int
            } else {
                0
            };
            &&& s.title is Some ==> lines[0] == (s.title->0, Style::Bold)
            &&& s.title is None ==> lines[0] == ("Unknown track"@, Style::Bold)
            &&& s.artist is Some ==> lines[1] == (s.artist->0, Style::Plain)
            &&& s.album is Some ==> lines[1 + artist] == (s.album->0, Style::Dim)
            &&& lines.last() == (s.status(volume), Style::Dim)
            &&& s.position(now) is None ==> lines.len() == 3 + artist + album
            &&& s.position(now) matches Some((elapsed, duration)) ==> {
                &&& lines.len() == 6 + artist + album
                &&& lines[lines.len() - 4] == (
                    bar_text(elapsed, duration, bar_columns(width)),
                    Style::Plain,
                )
                &&& lines[lines.len() - 3] == (
                    clock_text(elapsed) + " / "@ + clock_text(duration),
                    Style::Dim,
                )
            }
        }),
{
}

/// The status says who receives, who sends, what is sent and how loud, a dot
/// between each; what is not known is left out.
pub proof fn law_the_status_says_who_and_what(
    s: Screen,
    rate: u32,
    channels: u8,
    peer: Seq<char>,
    volume: Seq<char>,
)
    requires
        s.session == Some((rate, channels, peer)),
    ensures
        s.status(None) == s.name + " \u{b7} "@ + peer + " \u{b7} "@ + number::decimal(rate as nat)
            + " Hz "@ + number::decimal(channels as nat) + "ch"@,
        s.status(Some(volume)) == s.name + " \u{b7} "@ + peer + " \u{b7} "@ + number::decimal(
            rate as nat,
        ) + " Hz "@ + number::decimal(channels as nat) + "ch"@ + " \u{b7} "@ + volume,
        (Screen { session: None, ..s }).status(None) == s.name,
{
    assert(s.status(None) =~= s.name + " \u{b7} "@ + peer + " \u{b7} "@ + number::decimal(
        rate as nat,
    ) + " Hz "@ + number::decimal(channels as nat) + "ch"@);
    assert(s.status(Some(volume)) =~= s.name + " \u{b7} "@ + peer + " \u{b7} "@ + number::decimal(
        rate as nat,
    ) + " Hz "@ + number::decimal(channels as nat) + "ch"@ + " \u{b7} "@ + volume);
    assert((Screen { session: None, ..s }).status(None) =~= s.name);
}

/// The art is as tall as it can be: at most twenty rows and half as tall as the
/// screen is wide, and leaving three rows besides those of the text.
pub proof fn law_the_art_is_as_tall_as_fits(area: Rect, text_lines: u16)
    ensures
        ({
            let rows = art_rows(area, text_lines, true);
            &&& 0 <= rows <= 20
            &&& 2 * rows <= area.width
            &&& rows == 0 || rows + text_lines + 3 <= area.height
            &&& rows == 20 || 2 * (rows + 1) > area.width || rows + 1 + text_lines + 3
                > area.height
            &&& art_rows(area, text_lines, false) == 0
        }),
{
}

/// A block that fits has as much room above as below, to the row, and keeps its
/// height and the area's width; one that does not gets the whole area.
pub proof fn law_a_block_is_centered(area: Rect, height: u16)
    requires
        area.wf(),
    ensures
        ({
            let block = centered(area, height as int);
            let above = block.y - area.y;
            let below = (area.y + area.height) - (block.y + block.height);
            &&& block.x == area.x
            &&& block.width == area.width
            &&& height < area.height ==> block.height == height && 0 <= above <= below <= above
                + 1
            &&& height >= area.height ==> block == area
        }),
{
}

/// The art's box is twice as wide as tall, or as wide as there is room, and as far
/// from the left as from the right, to the column.
pub proof fn law_the_art_is_square(top: Rect, height: u16)
    requires
        top.wf(),
        height <= 32_767,
    ensures
        ({
            let art = boxed(top, height as int);
            let left = art.x - top.x;
            let right = (top.x + top.width) - (art.x + art.width);
            &&& art.y == top.y
            &&& art.height == height
            &&& 2 * height <= top.width ==> art.width == 2 * height && 0 <= left <= right <= left
                + 1
            &&& 2 * height > top.width ==> art.width == top.width && art.x == top.x
        }),
{
}

/// Which keys end the program: `q`, Escape, and Control with `c`.
pub proof fn law_which_keys_quit(key: Key, control: bool)
    ensures
        quits(Key::Char('q'), control),
        quits(Key::Esc, control),
        quits(Key::Char('c'), true),
        !quits(Key::Char('c'), false),
        key matches Key::Char(c) ==> c != 'q' && c != 'c' ==> !quits(key, control),
{
}

/// The text stands a row below the art, or alone, with as much room above the two
/// as below, to the row; where that does not fit, it gets what there is, but for
/// one row under art.
pub proof fn law_the_text_stands_a_row_below_the_art(area: Rect, text_lines: u16)
    requires
        area.wf(),
    ensures
        ({
            let (art, text) = placed(area, text_lines, true);
            let rows = art_rows(area, text_lines, true) + 1 + text_lines;
            let above = art.y - area.y;
            let below = (area.y + area.height) - (text.y + text.height);
            &&& text.x == area.x
            &&& text.width == area.width
            &&& rows <= area.height ==> {
                &&& text.height == text_lines
                &&& text.y == art.y + art.height + 1
                &&& 0 <= above <= below <= above + 1
            }
            &&& rows > area.height && area.height > 0 ==> text.y == area.y + 1 && text.height
                == area.height - 1
        }),
        ({
            let (art, text) = placed(area, text_lines, false);
            let above = text.y - area.y;
            let below = (area.y + area.height) - (text.y + text.height);
            &&& text.x == area.x
            &&& text.width == area.width
            &&& text_lines <= area.height ==> text.height == text_lines && 0 <= above <= below
                <= above + 1
            &&& text_lines > area.height ==> text == area
            &&& art.height == 0
        }),
{
}

} // verus!

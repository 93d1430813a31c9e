//! The now-playing display, rendered through ratatui's test backend.

use openairplay1::events::Event;
use openairplay1::time::Duration;
use openairplay1::tui::{
    artwork_box, bar_width, center_block, clock, exit_on, layout, progress_bar, Exit, Key,
    NowPlaying, Rect, Style, Wake,
};
use ratatui::backend::TestBackend;
use ratatui::layout::Alignment;
use ratatui::style::Stylize;
use ratatui::text::Line;
use ratatui::widgets::Paragraph;
use ratatui::Terminal;

/// When it is, on the display's clock.
const NOW: u64 = 1_000_000_000;

/// The volume as the display shows it.
fn volume(state: &NowPlaying) -> Option<String> {
    let db: f32 = state.volume_db()?.parse().unwrap();
    Some(format!("{db:.1} dB"))
}

fn draw(state: &NowPlaying, width: u16, height: u16) -> String {
    let mut terminal = Terminal::new(TestBackend::new(width, height)).unwrap();
    terminal
        .draw(|frame| {
            let area = frame.area();
            let lines = state.lines(area.width, NOW, volume(state).as_deref());
            let screen = Rect {
                x: area.x,
                y: area.y,
                width: area.width,
                height: area.height,
            };
            let (_, text) = layout(screen, lines.len() as u16, state.artwork().is_some());
            let styled: Vec<Line> = lines
                .iter()
                .map(|line| match line.style {
                    Style::Plain => Line::from(line.text.as_str()),
                    Style::Bold => Line::from(line.text.as_str().bold()),
                    Style::Dim => Line::from(line.text.as_str().dim()),
                })
                .collect();
            frame.render_widget(
                Paragraph::new(styled).alignment(Alignment::Center),
                ratatui::layout::Rect::new(text.x, text.y, text.width, text.height),
            );
        })
        .unwrap();
    let buffer = terminal.backend().buffer().clone();
    (0..buffer.area.height)
        .map(|y| {
            (0..buffer.area.width)
                .map(|x| buffer[(x, y)].symbol().to_string())
                .collect::<String>()
                .trim_end()
                .to_string()
        })
        .collect::<Vec<_>>()
        .join("\n")
}

fn playing() -> NowPlaying {
    let mut state = NowPlaying::new("Living Room".into());
    state.apply(Event::SessionStarted {
        rate: 44100,
        channels: 2,
        peer: "192.168.1.42".into(),
    }, NOW);
    state.apply(Event::Metadata {
        title: Some("Sonata No. 1".into()),
        artist: Some("Some Artist".into()),
        album: Some("Some Album".into()),
    }, NOW);
    state.apply(Event::Volume { db: "-12.5".into() }, NOW);
    state
}

/// Every rendered line is centered within the screen width.
fn assert_centered(screen: &str, width: u16) {
    for line in screen.lines().filter(|l| !l.trim().is_empty()) {
        let left = line.len() - line.trim_start().len();
        let right = width as usize - line.chars().count();
        assert!(
            left.abs_diff(right) <= 1,
            "line not centered (left {left}, right {right}): {line:?}"
        );
    }
}

#[test]
fn idle_screen_names_the_receiver() {
    let state = NowPlaying::new("Living Room".into());
    let screen = draw(&state, 40, 10);
    assert!(screen.contains("Living Room"), "{screen}");
    assert!(screen.contains("waiting for a sender"), "{screen}");
    assert_centered(&screen, 40);
}

#[test]
fn playing_screen_shows_track_and_status() {
    let screen = draw(&playing(), 60, 16);
    assert!(screen.contains("Sonata No. 1"), "{screen}");
    assert!(screen.contains("Some Artist"), "{screen}");
    assert!(screen.contains("Some Album"), "{screen}");
    assert!(
        screen.contains("Living Room · 192.168.1.42 · 44100 Hz 2ch · -12.5 dB"),
        "{screen}"
    );
    assert_centered(&screen, 60);
}

#[test]
fn progress_is_shown_as_a_bar_and_a_clock() {
    let mut state = playing();
    state.apply(Event::Progress {
        elapsed: Duration::from_secs(83),
        duration: Duration::from_secs(247),
    }, NOW);
    let screen = draw(&state, 60, 20);
    assert!(screen.contains("1:23 / 4:07"), "{screen}");
    assert!(screen.contains('━') && screen.contains('─'), "{screen}");
}

#[test]
fn a_stream_with_no_known_end_shows_no_clock() {
    let mut state = playing();
    state.apply(Event::Progress {
        elapsed: Duration::from_secs(10),
        duration: Duration::zero(),
    }, NOW);
    let screen = draw(&state, 60, 20);
    assert!(!screen.contains('/'), "{screen}");
}

#[test]
fn missing_metadata_fields_are_skipped_not_blanked() {
    let mut state = playing();
    state.apply(Event::Metadata {
        title: Some("Just A Title".into()),
        artist: None,
        album: None,
    }, NOW);
    let screen = draw(&state, 40, 12);
    assert!(screen.contains("Just A Title"), "{screen}");
    assert!(!screen.contains("Some Artist"), "{screen}");
}

#[test]
fn session_end_returns_to_idle() {
    let mut state = playing();
    state.apply(Event::SessionEnded, NOW);
    let screen = draw(&state, 40, 10);
    assert!(screen.contains("waiting for a sender"), "{screen}");
    assert!(!screen.contains("Sonata"), "{screen}");
}

#[test]
fn a_tiny_terminal_still_renders() {
    // Narrower and shorter than the content: no panic, no overflow.
    let screen = draw(&playing(), 12, 4);
    assert!(!screen.is_empty());
}

#[test]
fn artwork_gets_a_box_above_the_text() {
    let area = Rect { x: 0, y: 0, width: 60, height: 24 };
    let (art, text) = layout(area, 6, true);
    assert!(art.height > 0 && art.width == art.height * 2);
    assert!(art.y + art.height <= text.y, "artwork must sit above text");
    let (none, _) = layout(area, 6, false);
    assert_eq!(none.height, 0, "no artwork, no box");
}

#[test]
fn artwork_box_yields_to_a_short_screen() {
    // Eight rows of text on a ten-row screen leaves no room for art.
    let (art, _) = layout(Rect { x: 0, y: 0, width: 60, height: 10 }, 8, true);
    assert_eq!(art.height, 0);
}

#[test]
fn empty_artwork_clears_it() {
    let mut state = playing();
    state.apply(Event::Artwork {
        content_type: "image/jpeg".into(),
        data: vec![1, 2, 3],
    }, NOW);
    assert!(state.artwork().is_some());
    state.apply(Event::Artwork {
        content_type: "image/none".into(),
        data: Vec::new(),
    }, NOW);
    assert!(state.artwork().is_none(), "image/none must clear the art");
}

#[test]
fn the_clock_formats_hours_only_when_needed() {
    assert_eq!(clock(Duration::from_secs(0)), "0:00");
    assert_eq!(clock(Duration::from_secs(83)), "1:23");
    assert_eq!(clock(Duration::from_secs(3723)), "1:02:03");
}

#[test]
fn the_progress_bar_fills_proportionally() {
    assert_eq!(
        progress_bar(Duration::zero(), Duration::from_secs(10), 10),
        "──────────"
    );
    assert_eq!(
        progress_bar(Duration::from_secs(5), Duration::from_secs(10), 10),
        "━━━━━─────"
    );
    assert_eq!(
        progress_bar(Duration::from_secs(10), Duration::from_secs(10), 10),
        "━━━━━━━━━━"
    );
    // A position past the end (a seek report we haven't caught up with)
    // must not overflow the bar.
    assert_eq!(
        progress_bar(Duration::from_secs(99), Duration::from_secs(10), 10),
        "━━━━━━━━━━"
    );
}

#[test]
fn the_clock_runs_on_between_reports_and_stops_at_the_end() {
    let mut state = playing();
    assert_eq!(state.position(NOW), None);
    state.apply(
        Event::Progress {
            elapsed: Duration::from_secs(10),
            duration: Duration::from_secs(12),
        },
        NOW,
    );
    let at = |now: u64| state.position(now).unwrap().0.as_nanos();
    assert_eq!(at(NOW), 10_000_000_000);
    assert_eq!(at(NOW + 1_500_000_000), 11_500_000_000);
    assert_eq!(at(NOW + 60_000_000_000), 12_000_000_000);
    assert_eq!(at(0), 10_000_000_000);
    let mut state = state;
    state.apply(Event::Flushed, NOW);
    assert_eq!(state.position(NOW), None);
}

#[test]
fn the_lines_of_a_playing_screen() {
    let mut state = playing();
    state.apply(
        Event::Progress {
            elapsed: Duration::from_secs(5),
            duration: Duration::from_secs(10),
        },
        NOW,
    );
    let lines = state.lines(30, NOW, Some("0.0 dB"));
    let got: Vec<(&str, Style)> = lines.iter().map(|l| (l.text.as_str(), l.style)).collect();
    assert_eq!(
        got,
        vec![
            ("Sonata No. 1", Style::Bold),
            ("Some Artist", Style::Plain),
            ("Some Album", Style::Dim),
            ("", Style::Plain),
            ("\u{2501}\u{2501}\u{2501}\u{2501}\u{2501}\u{2500}\u{2500}\u{2500}\u{2500}\u{2500}", Style::Plain),
            ("0:05 / 0:10", Style::Dim),
            ("", Style::Plain),
            (
                "Living Room \u{b7} 192.168.1.42 \u{b7} 44100 Hz 2ch \u{b7} 0.0 dB",
                Style::Dim
            ),
        ]
    );
    let idle = NowPlaying::new("Den".into());
    assert_eq!(idle.status(None), "Den");
    assert_eq!(idle.lines(30, NOW, None).len(), 3);
    let mut nameless = NowPlaying::new("Den".into());
    nameless.apply(
        Event::SessionStarted {
            rate: 1,
            channels: 1,
            peer: "p".into(),
        },
        NOW,
    );
    assert_eq!(nameless.lines(30, NOW, None)[0].text, "Unknown track");
}

#[test]
fn boxes_are_centered() {
    let area = Rect { x: 3, y: 5, width: 60, height: 24 };
    let block = center_block(area, 10);
    assert_eq!(block, Rect { x: 3, y: 12, width: 60, height: 10 });
    assert_eq!(center_block(area, 24), area);
    assert_eq!(center_block(area, 99), area);
    assert_eq!(artwork_box(area, 10), Rect { x: 23, y: 5, width: 20, height: 10 });
    let narrow = Rect { x: 3, y: 5, width: 6, height: 24 };
    assert_eq!(artwork_box(narrow, 10), Rect { x: 3, y: 5, width: 6, height: 10 });
    let wide = Rect { x: 0, y: 0, width: u16::MAX, height: u16::MAX };
    assert_eq!(
        artwork_box(wide, 0x7FFF),
        Rect { x: 0, y: 0, width: 0xFFFE, height: 0x7FFF }
    );
    let (art, text) = layout(area, 6, true);
    assert_eq!(art, Rect { x: 18, y: 6, width: 30, height: 15 });
    assert_eq!(text, Rect { x: 3, y: 22, width: 60, height: 6 });
    let (none, text) = layout(area, 6, false);
    assert_eq!(none.height, 0);
    assert_eq!(text, Rect { x: 3, y: 14, width: 60, height: 6 });
}

#[test]
fn every_layout_keeps_to_its_area() {
    for height in 0..40u16 {
        for width in [0u16, 1, 7, 41, 200] {
            for text_lines in [0u16, 1, 3, 8, 30] {
                for with_artwork in [false, true] {
                    let area = Rect { x: 2, y: 1, width, height };
                    let (art, text) = layout(area, text_lines, with_artwork);
                    assert!(text.y >= 1 && text.y + text.height <= 1 + height);
                    let gap = u16::from(with_artwork);
                    if art.height + gap + text_lines <= height {
                        assert_eq!(text.height, text_lines);
                        assert_eq!(text.y, art.y + art.height + gap);
                    }
                }
            }
        }
    }
}

#[test]
fn the_bar_is_a_third_of_the_screen_within_bounds() {
    assert_eq!(bar_width(0), 10);
    assert_eq!(bar_width(60), 20);
    assert_eq!(bar_width(400), 40);
    // Halves round up, and a track without an end fills nothing.
    assert_eq!(
        progress_bar(Duration::from_secs(1), Duration::from_secs(4), 2),
        "\u{2501}\u{2500}"
    );
    assert_eq!(
        progress_bar(Duration::from_secs(1), Duration::zero(), 2),
        "\u{2500}\u{2500}"
    );
}

#[test]
fn the_display_ends_on_request() {
    let key = |key: Key, control: bool, press: bool| exit_on(Wake::Key { key, control, press });
    assert_eq!(key(Key::Char('q'), false, true), Some(Exit::Quit));
    assert_eq!(key(Key::Esc, false, true), Some(Exit::Quit));
    assert_eq!(key(Key::Char('c'), true, true), Some(Exit::Quit));
    assert_eq!(key(Key::Char('c'), false, true), None);
    assert_eq!(key(Key::Char('q'), false, false), None, "a release is no press");
    assert_eq!(key(Key::Other, false, true), None);
    assert_eq!(exit_on(Wake::ReceiverGone), Some(Exit::Disconnected));
    assert_eq!(exit_on(Wake::TerminalGone), Some(Exit::Quit));
    assert_eq!(exit_on(Wake::Terminate), Some(Exit::Quit));
    assert_eq!(exit_on(Wake::Event), None);
    assert_eq!(exit_on(Wake::Terminal), None);
    assert_eq!(exit_on(Wake::Tick), None);
}

#[test]
fn text_gets_a_screen_that_is_too_short() {
    for y in [0u16, 1, 7, 300] {
        for height in 0u16..40 {
            let area = Rect { x: 2, y, width: 50, height };
            for lines in [height, height + 1, height + 2, height + 9, 1000, 60_000] {
                let (art, text) = layout(area, lines, false);
                assert_eq!(text, area);
                assert_eq!(art, Rect { x: 27, y, width: 0, height: 0 });

                let (art, text) = layout(area, lines, true);
                let gap = height.min(1);
                assert_eq!(text, Rect { x: 2, y: y + gap, width: 50, height: height - gap });
                assert_eq!(art, Rect { x: 27, y, width: 0, height: 0 });
            }
        }
    }
    let tall = Rect { x: 0, y: 0, width: 9, height: 40_000 };
    assert_eq!(layout(tall, 50_000, false).1, tall);
    assert_eq!(layout(tall, 50_000, true).1, Rect { y: 1, height: 39_999, ..tall });
}

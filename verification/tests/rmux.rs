use explorer::render::{RgbValue, TuiColor};
use explorer::rmux_bridge::{PaneOrigin, RmuxPanes};
use explorer::rmux_state::{
    PaneDisconnectReason, PaneEvent, PaneExitReason, PaneLagNotice, PaneLifecycle,
    PaneOutputChunk, PaneShape, R3blPaneState,
};
use explorer::rmux_theme::{
    PaneCell, PaneColor, PaneSnapshot, glyph_char, map_attributes, map_color, to_offscreen_buffer,
};
use explorer::screen::PixelChar;
use rmux_sdk::PaneAttributes;

fn shape(revision: u64) -> PaneShape {
    PaneShape { cols: 80, rows: 24, revision }
}

fn cell(text: &str, padding: bool) -> PaneCell {
    PaneCell {
        text: text.to_string(),
        padding,
        attributes: 0x5,
        foreground: PaneColor::Ansi { index: 3 },
        background: PaneColor::Default,
    }
}

#[test]
fn colors_are_mapped() {
    assert_eq!(map_color(&PaneColor::Default), None);
    assert_eq!(map_color(&PaneColor::NoColor), None);
    assert_eq!(map_color(&PaneColor::Terminal), None);
    assert_eq!(map_color(&PaneColor::Ansi { index: 3 }), Some(TuiColor::Ansi(3)));
    assert_eq!(map_color(&PaneColor::BrightAnsi { index: 3 }), Some(TuiColor::Ansi(11)));
    assert_eq!(map_color(&PaneColor::Indexed { index: 200 }), Some(TuiColor::Ansi(200)));
    assert_eq!(
        map_color(&PaneColor::Rgb { red: 1, green: 2, blue: 3 }),
        Some(TuiColor::Rgb(RgbValue::new(1, 2, 3)))
    );
}

#[test]
fn encoded_colors_are_decoded() {
    for value in -2..1000 {
        let mine = map_color(&PaneColor::Encoded { value });
        let expected = match rmux_sdk::PaneColor::from_encoded(value) {
            rmux_sdk::PaneColor::Ansi { index } | rmux_sdk::PaneColor::Indexed { index } => Some(TuiColor::Ansi(index)),
            rmux_sdk::PaneColor::BrightAnsi { index } => Some(TuiColor::Ansi(index + 8)),
            rmux_sdk::PaneColor::Rgb { red, green, blue } => Some(TuiColor::Rgb(RgbValue::new(red, green, blue))),
            _ => None,
        };
        assert_eq!(mine, expected, "{value}");
    }
}

#[test]
fn attributes_are_mapped() {
    let bits = |a: PaneAttributes| a.bits();
    assert!(map_attributes(bits(PaneAttributes::BOLD)).bold);
    assert!(map_attributes(bits(PaneAttributes::DIM)).dim);
    assert!(map_attributes(bits(PaneAttributes::UNDERLINE)).underline);
    assert!(map_attributes(bits(PaneAttributes::DOUBLE_UNDERLINE)).underline);
    assert!(map_attributes(bits(PaneAttributes::CURLY_UNDERLINE)).underline);
    assert!(map_attributes(bits(PaneAttributes::DOTTED_UNDERLINE)).underline);
    assert!(map_attributes(bits(PaneAttributes::DASHED_UNDERLINE)).underline);
    assert!(map_attributes(bits(PaneAttributes::BLINK)).blink);
    assert!(map_attributes(bits(PaneAttributes::REVERSE)).reverse);
    assert!(map_attributes(bits(PaneAttributes::HIDDEN)).hidden);
    assert!(map_attributes(bits(PaneAttributes::ITALIC)).italic);
    assert!(map_attributes(bits(PaneAttributes::STRIKETHROUGH)).strikethrough);
    assert!(map_attributes(bits(PaneAttributes::OVERLINE)).overline);
    assert!(!map_attributes(0).bold);
}

#[test]
fn cells_are_drawn() {
    assert_eq!(glyph_char("漢x", false), '漢');
    assert_eq!(glyph_char("x", true), ' ');
    assert_eq!(glyph_char("", false), ' ');
    let snapshot = PaneSnapshot {
        cols: 2,
        rows: 2,
        cells: vec![cell("漢", false), cell("", true), cell("b", false)],
        cursor_row: 1,
        cursor_col: 0,
    };
    let buffer = to_offscreen_buffer(&snapshot);
    assert_eq!((buffer.size.col_width, buffer.size.row_height), (2, 2));
    assert_eq!((buffer.cursor_pos.col_index, buffer.cursor_pos.row_index), (0, 1));
    match buffer.buffer[0][0] {
        PixelChar::PlainText { display_char, style } => {
            assert_eq!(display_char, '漢');
            assert_eq!(style.color_fg, Some(TuiColor::Ansi(3)));
            assert_eq!(style.color_bg, None);
            assert!(style.attribs.bold && style.attribs.underline && !style.attribs.dim);
        }
        _ => panic!("a character is drawn"),
    }
    assert!(matches!(buffer.buffer[0][1], PixelChar::Spacer));
    assert!(matches!(buffer.buffer[1][0], PixelChar::PlainText { display_char: 'b', .. }));
    assert!(matches!(buffer.buffer[1][1], PixelChar::Spacer));
}

#[test]
fn generation_follows_the_revision() {
    let mut pane = R3blPaneState::from_snapshot(shape(1));
    assert_eq!((pane.cols(), pane.rows(), pane.revision()), (80, 24, 1));
    pane.set_snapshot(shape(1));
    assert_eq!(pane.generation, 0);
    pane.set_snapshot(shape(2));
    assert_eq!(pane.generation, 1);
    pane.generation = u64::MAX;
    pane.set_snapshot(shape(3));
    assert_eq!(pane.generation, 0);
    pane.set_pane_id(9);
    assert_eq!(pane.pane_id, Some(9));
}

#[test]
fn state_that_was_copied_stays_as_it_was() {
    let mut pane = R3blPaneState::from_snapshot(shape(1));
    pane.set_pane_id(9);
    pane.apply_event(&PaneEvent::Pause);
    let before = pane.copy();
    pane.apply_event(&PaneEvent::Close);
    pane.set_snapshot(shape(2));
    assert!(before.lifecycle.is_live() && before.paused);
    assert_eq!((before.pane_id, before.revision(), before.generation), (Some(9), 1, 0));
    assert!(!pane.lifecycle.is_live() && !pane.copy().lifecycle.is_live());
}

#[test]
fn events_change_the_life_of_a_pane() {
    let mut pane = R3blPaneState::from_snapshot(shape(1));
    assert!(pane.lifecycle.is_live());
    pane.apply_event(&PaneEvent::Other);
    pane.apply_event(&PaneEvent::Pause);
    assert!(pane.paused && pane.lifecycle.is_live());
    pane.apply_event(&PaneEvent::Continue);
    assert!(!pane.paused);
    pane.apply_event(&PaneEvent::Lag);
    assert!(pane.lagging);
    pane.clear_lag();
    assert!(!pane.lagging);
    let notice = PaneLagNotice {
        expected_sequence: 1,
        resume_sequence: 5,
        missed_events: 4,
        newest_sequence: 9,
    };
    pane.apply_output_chunk(&PaneOutputChunk::Bytes(vec![1, 2]));
    assert!(pane.last_lag_notice.is_none());
    pane.apply_output_chunk(&PaneOutputChunk::Lag(notice));
    assert_eq!(pane.last_lag_notice, Some(notice));
    assert!(pane.lagging);
    pane.apply_event(&PaneEvent::Exit(PaneExitReason::Bare));
    assert!(matches!(pane.lifecycle, PaneLifecycle::Exited(_)));
    pane.apply_event(&PaneEvent::Disconnect(PaneDisconnectReason::ServerShutdown));
    assert!(matches!(pane.lifecycle, PaneLifecycle::Disconnected(_)));
    pane.apply_event(&PaneEvent::Close);
    assert!(matches!(pane.lifecycle, PaneLifecycle::Closed));
}

#[test]
fn panes_are_split_off_others() {
    let mut panes = RmuxPanes::new();
    assert_eq!(panes.plan_pane(), (1, Some(PaneOrigin::First)));
    // The first pane was not to be had, so there is none to split.
    assert_eq!(panes.plan_pane(), (2, None));
    let mut panes = RmuxPanes::new();
    panes.plan_pane();
    panes.note_pane(1);
    assert_eq!(panes.plan_pane(), (2, Some(PaneOrigin::Split(1))));
    assert!(panes.has_pane(1));
    assert!(!panes.has_pane(2));
}

#[test]
fn only_new_sizes_are_handed_on() {
    let mut panes = RmuxPanes::new();
    panes.note_pane(1);
    assert!(panes.note_resize(1, 80, 24));
    assert!(!panes.note_resize(1, 80, 24));
    assert!(panes.note_resize(1, 80, 25));
    assert!(!panes.note_resize(2, 80, 24));
}

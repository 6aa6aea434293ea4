use explorer::geometry::{Pos, Size};
use explorer::pane_manager::SelPoint;
use explorer::render::{TuiStyle, TuiStyleAttribs};
use explorer::screen::{
    PixelChar, Screen, extract_terminal_text, terminal_line_at_viewport_row, terminal_word_bounds,
    trimmed_pixel_char_line,
};

fn plain_style() -> TuiStyle {
    TuiStyle { attribs: TuiStyleAttribs::plain(), color_fg: None, color_bg: None }
}

fn cells(text: &str, width: usize) -> Vec<PixelChar> {
    let mut line: Vec<PixelChar> = text
        .chars()
        .map(|display_char| PixelChar::PlainText { display_char, style: plain_style() })
        .collect();
    while line.len() < width {
        line.push(PixelChar::Spacer);
    }
    line
}

fn screen(scrollback: &[&str], buffer: &[&str]) -> Screen {
    Screen {
        buffer: buffer.iter().map(|l| cells(l, 20)).collect(),
        scrollback: scrollback.iter().map(|l| cells(l, 20)).collect(),
        size: Size { col_width: 20, row_height: buffer.len() as u16 },
        cursor_pos: Pos { col_index: 0, row_index: 0 },
        cursor_visible: true,
        alternate: false,
        mouse_tracking: false,
        bracketed_paste: false,
        focus_events: false,
        application_cursor: false,
    }
}

fn between(line: &str, start: usize, end: usize) -> String {
    line.chars().skip(start).take(end - start).collect()
}

#[test]
fn empty_line() {
    assert_eq!(terminal_word_bounds("", 0), (0, 0));
}

#[test]
fn ascii_word_at_start() {
    let line = "hello world";
    let (start, end) = terminal_word_bounds(line, 0);
    assert_eq!(&line[start..end], "hello");
}

#[test]
fn ascii_word_in_middle() {
    let line = "hello world";
    let (start, end) = terminal_word_bounds(line, 6);
    assert_eq!(&line[start..end], "world");
}

#[test]
fn ascii_word_at_end() {
    let line = "hello world";
    let (start, end) = terminal_word_bounds(line, 10);
    assert_eq!(&line[start..end], "world");
}

#[test]
fn whitespace_run() {
    let line = "hello   world";
    let (start, end) = terminal_word_bounds(line, 5);
    assert_eq!(&line[start..end], "   ");
}

#[test]
fn multibyte_box_drawing_chars() {
    let line = " ╭──╮";
    // column 2 -> first ─
    let (start, end) = terminal_word_bounds(line, 2);
    assert_eq!(between(line, start, end), "─");
}

#[test]
fn multibyte_long_box_drawing_line() {
    let line = " ╭────────────────────────────────────────────────────────────────────────────────────────────────────────────────────╮ ";
    // column 39 -> a ─ in the middle of the run
    let (start, end) = terminal_word_bounds(line, 39);
    assert_eq!(between(line, start, end), "─");
}

#[test]
fn multibyte_click_on_first_multibyte_char() {
    let line = "╭─";
    let (start, end) = terminal_word_bounds(line, 0);
    assert_eq!(between(line, start, end), "╭");
}

#[test]
fn multibyte_click_on_last_char() {
    let line = "╭─";
    let (start, end) = terminal_word_bounds(line, 1);
    assert_eq!(between(line, start, end), "─");
}

#[test]
fn url_detection() {
    let line = "see https://example.com for more";
    let (start, end) = terminal_word_bounds(line, 5);
    assert_eq!(&line[start..end], "https://example.com");
}

#[test]
fn cursor_beyond_line_length() {
    let line = "hi";
    let (start, end) = terminal_word_bounds(line, 100);
    assert_eq!(&line[start..end], "hi");
}

#[test]
fn trimmed_line_multibyte_char_count() {
    let line = cells("╭─╮", 0);
    let (s, count) = trimmed_pixel_char_line(&line);
    assert_eq!(count, 3);
    assert_eq!(s, "╭─╮");
    // Each char is 3 bytes; byte len would be 9, not 3.
    assert_eq!(s.len(), 9);
}

#[test]
fn trimmed_line_multibyte_with_trailing_spacers() {
    let line = cells("█▒", 4);
    let (s, count) = trimmed_pixel_char_line(&line);
    assert_eq!(count, 2);
    assert_eq!(s, "█▒");
    // Byte len: 6 (2 × 3-byte UTF-8 chars).
    assert_eq!(s.len(), 6);
}

#[test]
fn viewport_shows_history_when_scrolled_back() {
    let s = screen(&["one", "two"], &["three", "four"]);
    assert_eq!(terminal_line_at_viewport_row(&s, 0, 0, 2), ("three".to_string(), 5));
    assert_eq!(terminal_line_at_viewport_row(&s, 1, 0, 2), ("two".to_string(), 3));
    assert_eq!(terminal_line_at_viewport_row(&s, 2, 1, 2), ("two".to_string(), 3));
}

#[test]
fn selected_text_runs_over_lines() {
    let s = screen(&[], &["hello world", "good bye"]);
    let start = SelPoint::Terminal { viewport_row: 0, col: 6 };
    let end = SelPoint::Terminal { viewport_row: 1, col: 4 };
    let all = Some("hello world\ngood bye".to_string());
    assert_eq!(extract_terminal_text(&s, 0, start, end, 2), all);
    assert_eq!(extract_terminal_text(&s, 0, end, start, 2), all);
    let same_row = SelPoint::Terminal { viewport_row: 0, col: 9 };
    assert_eq!(extract_terminal_text(&s, 0, same_row, start, 2), Some("wor".to_string()));
}

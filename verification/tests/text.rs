use explorer::bytes::{bytes_before, chars_before, len_utf8, same_text, slice, text_len};
use explorer::loader::FileData;
use explorer::number::{digit_count, number_text, parse_number};
use explorer::paths::{ancestor_dirs, nearest_dir, relative_path};
use explorer::preview_draw::byte_to_char;
use explorer::state::{LoadedFile, file_key_for_path};
use explorer::text::{
    chars_of, grapheme_count, is_ascii_punctuation, is_control, is_whitespace, split_at_char,
    text_of,
};
use explorer::word::{span_at, word_span_at};

#[test]
fn characters_are_told_apart_as_the_standard_library_does() {
    for n in 0..=0x10FFFFu32 {
        if let Some(c) = char::from_u32(n) {
            assert_eq!(is_whitespace(c), c.is_whitespace(), "{n:x}");
            assert_eq!(is_ascii_punctuation(c), c.is_ascii_punctuation(), "{n:x}");
            assert_eq!(is_control(c), c.is_control(), "{n:x}");
            assert_eq!(len_utf8(c), c.len_utf8(), "{n:x}");
        }
    }
}

#[test]
fn bytes_and_characters_lead_to_each_other() {
    let text = "aé漢🦀z";
    let chars: Vec<char> = text.chars().collect();
    assert_eq!(text_len(text), text.len());
    for (i, (byte, _)) in text.char_indices().enumerate() {
        assert_eq!(bytes_before(&chars, i), byte);
        assert_eq!(chars_before(&chars, byte), i);
        assert_eq!(byte_to_char(text, byte), i);
    }
    assert_eq!(bytes_before(&chars, 5), text.len());
    assert_eq!(byte_to_char(text, 100), 5);
}

#[test]
fn parts_of_texts() {
    assert_eq!(slice("héllo", 1, 3), "é");
    let chars = chars_of("héllo");
    assert_eq!(text_of(&chars, 1, 3), "él");
    assert!(same_text("abc", "abc"));
    assert!(!same_text("abc", "abd"));
    assert_eq!(split_at_char("a,b,,c", ','), vec!["a", "b", "", "c"]);
    assert_eq!(split_at_char("", ','), vec![""]);
}

#[test]
fn clusters_count_once() {
    // An "e" with an accent of its own, and a flag, are one cluster each.
    assert_eq!(grapheme_count("e\u{301}x"), 2);
    assert_eq!(grapheme_count("🇩🇪"), 1);
    assert_eq!(grapheme_count("hello"), 5);
    assert_eq!(grapheme_count(""), 0);
}

#[test]
fn numbers_are_written_and_read() {
    for n in [0, 7, 10, 99, 12345, usize::MAX] {
        assert_eq!(number_text(n), n.to_string());
        assert_eq!(digit_count(n), n.to_string().len());
        assert_eq!(parse_number(&n.to_string()), Some(n));
    }
    assert_eq!(parse_number("18446744073709551616"), None);
    assert_eq!(parse_number(""), None);
    assert_eq!(parse_number("12a"), None);
    assert_eq!(parse_number("+12"), Some(12));
    assert_eq!(parse_number("-1"), None);
}

#[test]
fn lines_of_a_text() {
    let data = FileData::new("ab\ncd\n\nef".to_string());
    assert_eq!(data.line(0), "ab");
    assert_eq!(data.line(2), "");
    assert_eq!(data.line(3), "ef");
    assert_eq!(data.line_bounds(1), (3, 5));
}

#[test]
fn paths_are_shown_below_the_root() {
    assert_eq!(relative_path("/repo/src/main.rs", "/repo"), "src/main.rs");
    assert_eq!(relative_path("/other/x.rs", "/repo"), "/other/x.rs");
}

#[test]
fn spelling_of_a_path_does_not_matter() {
    let files = vec![
        LoadedFile::stub("/repo/a.rs".to_string()),
        LoadedFile::stub("/repo/src/b.rs".to_string()),
    ];
    let found = file_key_for_path(&files, "/repo/./src//b.rs");
    assert_eq!(found.map(|key| key.0), Some(1));
    assert!(file_key_for_path(&files, "/repo/src/c.rs").is_none());
}

#[test]
fn words_need_a_letter_of_any_script() {
    let chars: Vec<char> = "größe+naïve".chars().collect();
    assert_eq!(word_span_at(&chars, 2), (0, 5));
    assert_eq!(word_span_at(&chars, 6), (6, 11));
    // What counts as part of a word is handed in.
    let plain: Vec<char> = "ab-cd".chars().collect();
    assert_eq!(span_at(&plain, &vec![true; 5], None, 2), (0, 5));
}

#[test]
fn web_addresses_are_taken_whole() {
    let text = "see (https://a.b/c?d=e) now";
    let data = FileData::new(text.to_string());
    let (start, end) = data.word_bounds(10);
    assert_eq!(&text[start..end], "https://a.b/c?d=e");
}

#[test]
fn directories_above_a_file() {
    let dirs = ancestor_dirs("/repo/src/tui/a.rs");
    assert_eq!(dirs, vec!["/repo/src/tui", "/repo/src", "/repo", "/"]);
    assert_eq!(ancestor_dirs("a.rs"), vec![""]);
    assert!(ancestor_dirs("/").is_empty());
    let holds = vec![false, true, true, false];
    assert_eq!(nearest_dir(&dirs, &holds).as_deref(), Some("/repo/src"));
    assert_eq!(nearest_dir(&dirs, &vec![false; 4]), None);
}

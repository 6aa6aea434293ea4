use explorer::loader::{FileData, FileKey, compute_line_starts};
use explorer::state::{LoadedFile, file_key_for_path, path_for_file_key};

fn fd(content: &str) -> FileData {
    FileData {
        content: content.to_string(),
        line_starts: compute_line_starts(content),
    }
}

fn loader_file() -> LoadedFile {
    LoadedFile::load("src/loader.rs".to_string(), Some("//! Files.\n".to_string())).expect("a text was read")
}

#[test]
fn char_to_byte_ascii() {
    let data = fd("hello");
    assert_eq!(data.char_to_byte(0, 0), 0);
    assert_eq!(data.char_to_byte(0, 1), 1);
    assert_eq!(data.char_to_byte(0, 4), 4);
    assert_eq!(data.char_to_byte(0, 5), 5);
    assert_eq!(data.char_to_byte(0, 100), 5);
}

#[test]
fn char_to_byte_multibyte() {
    let data = fd("héllo");
    assert_eq!(data.char_to_byte(0, 0), 0); // 'h'
    assert_eq!(data.char_to_byte(0, 1), 1); // 'é' starts at byte 1
    assert_eq!(data.char_to_byte(0, 2), 3); // 'l' starts at byte 3
    assert_eq!(data.char_to_byte(0, 5), 6); // past end
}

#[test]
fn extract_text_basic() {
    let data = fd("hello\nworld");
    assert_eq!(data.extract_text(0, 5), Some("hello".to_string()));
    assert_eq!(data.extract_text(6, 11), Some("world".to_string()));
    assert_eq!(data.extract_text(0, 11), Some("hello\nworld".to_string()));
}

#[test]
fn extract_text_swapped() {
    let data = fd("hello");
    assert_eq!(data.extract_text(3, 1), Some("el".to_string()));
}

#[test]
fn extract_text_empty() {
    let data = fd("hello");
    assert_eq!(data.extract_text(2, 2), None);
}

#[test]
fn word_bounds_whitespace() {
    let data = fd("foo    bar");
    let (start, end) = data.word_bounds(3);
    assert_eq!(data.extract_text(start, end).as_deref(), Some("    "));

    let data = fd("foo  \n  bar");
    let (start, end) = data.word_bounds(3);
    assert_eq!(data.extract_text(start, end).as_deref(), Some("  \n  "));

    let data = fd("foo\t\tbar");
    let (start, end) = data.word_bounds(3);
    assert_eq!(data.extract_text(start, end).as_deref(), Some("\t\t"));
}

#[test]
fn word_bounds_url() {
    let data = fd("url=file://url?foo#bar baz");
    let (start, end) = data.word_bounds(6);
    assert_eq!(data.extract_text(start, end).as_deref(), Some("file://url?foo#bar"));

    let data = fd("format!(\"file://root\").parse().unwrap()");
    let (start, end) = data.word_bounds(15);
    assert_eq!(data.extract_text(start, end).as_deref(), Some("file://root"));

    let data = fd("see also https://example.com/path?q=1");
    let (start, end) = data.word_bounds(10);
    assert_eq!(data.extract_text(start, end).as_deref(), Some("https://example.com/path?q=1"));

    let data = fd("[https://a.b]");
    let (start, end) = data.word_bounds(5);
    assert_eq!(data.extract_text(start, end).as_deref(), Some("https://a.b"));

    let data = fd("{https://a.b}");
    let (start, end) = data.word_bounds(5);
    assert_eq!(data.extract_text(start, end).as_deref(), Some("https://a.b"));
}

#[test]
fn word_bounds_alphanumeric() {
    let data = fd("fn foo_bar() {}");
    let (start, end) = data.word_bounds(6);
    assert_eq!(data.extract_text(start, end).as_deref(), Some("foo_bar"));

    let data = fd("123abc");
    let (start, end) = data.word_bounds(3);
    assert_eq!(data.extract_text(start, end).as_deref(), Some("123abc"));

    let data = fd("use serde_json::Value;");
    let (start, end) = data.word_bounds(12);
    assert_eq!(data.extract_text(start, end).as_deref(), Some("serde_json"));
}

#[test]
fn word_bounds_multibyte() {
    let data = fd("héllo");
    let (start, end) = data.word_bounds(3);
    assert_eq!(data.extract_text(start, end).as_deref(), Some("héllo"));
}

#[test]
fn word_bounds_empty() {
    let data = fd("");
    let (start, end) = data.word_bounds(0);
    assert_eq!(start, 0);
    assert_eq!(end, 0);
}

#[test]
fn word_bounds_trailing_punctuation() {
    let data = fd("foo.bar");
    let (start, end) = data.word_bounds(3);
    assert_eq!(data.extract_text(start, end).as_deref(), Some("."));
}

#[test]
fn word_bounds_at_the_end_stand_on_the_last_character() {
    assert_eq!(fd("foo bar").word_bounds(7), (4, 7));
    assert_eq!(fd("foo é").word_bounds(6), (4, 6));
}

#[test]
fn path_for_file_key_returns_path() {
    let files = vec![loader_file()];
    let key = FileKey(0);
    let path = path_for_file_key(&files, key);
    assert!(path.is_some());
    assert!(path_for_file_key(&files, FileKey(1)).is_none());
}

#[test]
fn file_key_for_path_finds_matching_file() {
    let files = vec![loader_file()];
    let path = path_for_file_key(&files, FileKey(0)).unwrap();
    assert_eq!(file_key_for_path(&files, path), Some(FileKey(0)));
}

#[test]
fn a_path_may_be_spelled_in_another_way() {
    let files = vec![loader_file()];
    assert_eq!(file_key_for_path(&files, "src//loader.rs"), Some(FileKey(0)));
    assert_eq!(file_key_for_path(&files, "src/./loader.rs"), Some(FileKey(0)));
    assert_eq!(file_key_for_path(&files, "src/other.rs"), None);
}

#[test]
fn stub_file_is_marked_removed() {
    let stub = LoadedFile::stub("/repo/missing.rs".to_string());
    assert!(stub.removed);
    assert!(stub.data.content.is_empty());
}

#[test]
fn lines_keep_only_the_last_line_break() {
    let data = fd("one\ntwo\n");
    assert_eq!(data.line_starts, vec![0, 4]);
    assert_eq!(data.line(0), "one");
    assert_eq!(data.line(1), "two\n");
    assert_eq!(data.line(2), "one\ntwo\n");
    assert_eq!(data.line_bounds(1), (4, 8));
    assert_eq!(fd("").line(0), "");
    assert_eq!(fd("\n\nx").line(1), "");
}

#[test]
fn a_file_that_cannot_be_read_stays_as_it_is() {
    assert!(LoadedFile::load("gone.rs".to_string(), None).is_none());
    let mut file = loader_file();
    file.colored_lines = vec![vec![(0, 3, "comment")]];
    assert!(!file.reload(None));
    assert_eq!(file.data.content, "//! Files.\n");
    assert_eq!(file.colored_lines.len(), 1);
    assert!(file.reload(Some("new\ntext".to_string())));
    assert_eq!(file.data.content, "new\ntext");
    assert_eq!(file.data.line_starts, vec![0, 4]);
    assert!(file.colored_lines.is_empty());
}

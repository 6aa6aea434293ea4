use explorer::file_name_picker::{FileNamePickerComponent, run_file_name_match, terminal_accent};
use explorer::loader::FileKey;
use explorer::pane_manager::Window;
use explorer::ranking::{Ranking, scores_fit, sort_places};
use explorer::state::LoadedFile;
use explorer::theme::HelixTheme;
use explorer::theme_picker::{match_names, run_theme_name_match};

fn live_file(path: &str) -> LoadedFile {
    let mut f = LoadedFile::stub(path.to_string());
    f.removed = false;
    f
}

#[test]
fn open_list_includes_terminals_and_files_in_stack_order() {
    // index 0: live file, index 1: removed file.
    let removed = LoadedFile::stub("gone.rs".to_string()); // stub() marks removed = true
    let files = vec![live_file("src/main.rs"), removed];

    // Stack front-to-back, with a duplicate terminal and the picker itself.
    let stack = vec![
        Window::FilePreview(FileKey(0)),
        Window::Terminal(3),
        Window::FileNamePicker,
        Window::FilePreview(FileKey(1)), // removed -> excluded
        Window::Terminal(3),             // duplicate -> deduped
    ];

    let results = FileNamePickerComponent::open_previews_results(&files, &stack);
    let windows: Vec<Window> = results.into_iter().map(|(w, _)| w).collect();
    assert_eq!(windows, vec![Window::FilePreview(FileKey(0)), Window::Terminal(3)]);
}

#[test]
fn terminal_accent_is_distinct_and_theme_sourced() {
    let theme = HelixTheme::default();
    let accent = terminal_accent(&theme);
    // Never identical to the file-row (ui.text) color.
    assert_ne!(Some(accent), theme.ui_fg("ui.text"));
    // On the default theme it resolves to the `function` scope color.
    assert_eq!(Some(accent), theme.color_for_scope("function"));
}

#[test]
fn files_are_found_by_their_letters() {
    let files = vec![
        live_file("/repo/src/main.rs"),
        live_file("/repo/src/tui/theme.rs"),
        live_file("/repo/README.md"),
    ];
    let found = run_file_name_match("theme", &files, "/repo", &Vec::new());
    assert_eq!(found.len(), 1);
    assert_eq!(found[0].0, Window::FilePreview(FileKey(1)));
    // The places are those of "theme" in "src/tui/theme.rs".
    assert_eq!(found[0].1, vec![8, 9, 10, 11, 12]);
    assert!(run_file_name_match("zzzzq", &files, "/repo", &Vec::new()).is_empty());
}

#[test]
fn files_with_long_paths_do_not_keep_others_from_being_found() {
    let query = "a".repeat(2000);
    let short = "a".repeat(1000);
    let files = vec![live_file(&format!("/repo/{}", "a".repeat(3000))), live_file("/repo/b.rs")];
    // The long path cannot be scored against a query as long as this.
    assert!(!scores_fit(&query, &"a".repeat(3000)));
    assert!(run_file_name_match(&query, &files, "/repo", &Vec::new()).is_empty());
    let found = run_file_name_match(&short, &files, "/repo", &Vec::new());
    assert_eq!(found.len(), 1);
    assert_eq!(found[0].0, Window::FilePreview(FileKey(0)));
    // A query of several words may be longer than a path that it matches.
    let words = "b ".repeat(1000);
    let found = run_file_name_match(&words, &files, "/repo", &Vec::new());
    assert_eq!(found.len(), 1);
    assert_eq!(found[0].0, Window::FilePreview(FileKey(1)));
    let names: Vec<&'static str> = vec!["nord", "dark"];
    assert_eq!(match_names(&"d ".repeat(1000), &names).len(), 2);
}

#[test]
fn removed_files_are_not_found() {
    let mut files = vec![live_file("/repo/src/main.rs")];
    files[0].removed = true;
    assert!(run_file_name_match("main", &files, "/repo", &Vec::new()).is_empty());
}

#[test]
fn nothing_to_find_lists_the_open_windows() {
    let files = vec![live_file("/repo/src/main.rs"), live_file("/repo/x.rs")];
    let stack = vec![Window::FilePreview(FileKey(1))];
    let found = run_file_name_match("  ", &files, "/repo", &stack);
    assert_eq!(found.len(), 1);
    assert_eq!(found[0].0, Window::FilePreview(FileKey(1)));
}

#[test]
fn best_matches_come_first() {
    let names: Vec<&'static str> = vec!["solarized_dark", "dark_plus", "nord"];
    let found = match_names("dark", &names);
    let order: Vec<&str> = found.iter().map(|(n, _)| n.as_str()).collect();
    assert_eq!(order.len(), 2);
    assert!(order.contains(&"dark_plus") && order.contains(&"solarized_dark"));
    assert_eq!(found.iter().find(|(n, _)| n == "dark_plus").unwrap().1, vec![0, 1, 2, 3]);
    assert_eq!(match_names("", &names).len(), 3);
}

#[test]
fn the_built_in_themes_are_matched() {
    let all = run_theme_name_match("");
    assert_eq!(all.len(), HelixTheme::theme_names().len());
    let found = run_theme_name_match("mocha");
    assert_eq!(found[0].0, "catppuccin_mocha");
    assert_eq!(found[0].1, vec![11, 12, 13, 14, 15]);
}

#[test]
fn ranking_keeps_the_order_of_equal_scores() {
    let ranking: Ranking<u64> = Ranking::new();
    let ranking = ranking.put(1, 10, &vec![3, 1]);
    let ranking = ranking.put(2, 30, &vec![]);
    let ranking = ranking.put(3, 10, &vec![2, 2]);
    let found = ranking.finish();
    assert_eq!(found, vec![(2, vec![]), (1, vec![1, 3]), (3, vec![2])]);
}

#[test]
fn places_are_sorted_and_each_is_there_once() {
    assert_eq!(sort_places(&vec![5, 1, 5, 3, 1]), vec![1, 3, 5]);
    assert_eq!(sort_places(&vec![]), Vec::<u32>::new());
}

#[test]
fn scores_of_ordinary_texts_fit() {
    assert!(scores_fit("query", "some/path.rs"));
}

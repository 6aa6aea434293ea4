use explorer::preview_text::{
    content_width, line_number_width, parse_ranges, range_in_title, row_count, write_range,
    write_title,
};
use explorer::ranges::{
    compute_scroll_target, compute_single_block_scroll, scroll_for_block, subtract_ranges,
    union_ranges,
};
use explorer::scrollbar::{ScrollState, is_on_thumb, scroll_from_drag, scroll_from_y};
use explorer::shell::{expand_placeholders, sh_quote};

#[test]
fn union_merges_neighbours() {
    assert_eq!(union_ranges(&vec![(1, 3), (8, 9)], 4, 5), vec![(1, 5), (8, 9)]);
    assert_eq!(union_ranges(&vec![(1, 3), (8, 9)], 2, 8), vec![(1, 9)]);
    assert_eq!(union_ranges(&vec![], 4, 4), vec![(4, 4)]);
}

#[test]
fn subtraction_splits_ranges() {
    assert_eq!(subtract_ranges(&vec![(1, 9)], 4, 5), vec![(1, 3), (6, 9)]);
    assert_eq!(subtract_ranges(&vec![(1, 3), (5, 6)], 1, 5), vec![(6, 6)]);
    assert_eq!(subtract_ranges(&vec![(4, 5)], 1, 9), Vec::<(usize, usize)>::new());
}

#[test]
fn subtraction_undoes_union_of_new_lines() {
    let before = vec![(1, 3), (10, 12)];
    let after = union_ranges(&before, 5, 8);
    assert_eq!(subtract_ranges(&after, 5, 8), before);
}

#[test]
fn ranges_that_run_backward_are_kept() {
    assert_eq!(union_ranges(&vec![(5, 4), (1, 2)], 8, 9), vec![(1, 2), (5, 4), (8, 9)]);
    assert_eq!(union_ranges(&vec![(5, 4)], 5, 6), vec![(5, 6)]);
    assert_eq!(subtract_ranges(&vec![(9, 2), (1, 3)], 3, 4), vec![(9, 2), (1, 2)]);
    assert_eq!(subtract_ranges(&vec![(5, 4)], 4, 5), Vec::<(usize, usize)>::new());
    // Such a range is shown by its first line.
    assert_eq!(scroll_for_block(50, 40, 20), 40);
    assert_eq!(compute_scroll_target(&vec![(50, 40)], 20), 40);
}

#[test]
fn union_covers_lines_of_ranges_out_of_order() {
    assert_eq!(union_ranges(&vec![(8, 9), (1, 3)], 4, 5), vec![(1, 5), (8, 9)]);
}

#[test]
fn blocks_are_scrolled_into_sight() {
    // A block that fits is put in the middle.
    assert_eq!(compute_single_block_scroll(50, 10, 20), 44);
    // One that does not starts a fifth of the page below the top.
    assert_eq!(compute_single_block_scroll(50, 41, 20), 45);
    assert_eq!(scroll_for_block(50, 90, 20), 45);
    assert_eq!(compute_scroll_target(&vec![(50, 59)], 20), 44);
    // Blocks that fit together are shown together; else the first is.
    assert_eq!(compute_scroll_target(&vec![(50, 51), (58, 59)], 20), 44);
    assert_eq!(compute_scroll_target(&vec![(50, 59), (90, 95)], 20), 44);
    assert_eq!(compute_scroll_target(&vec![], 20), 0);
}

#[test]
fn ranges_are_written_and_parsed() {
    assert_eq!(write_range((3, 3)), "3");
    assert_eq!(write_range((3, 5)), "3-5");
    assert_eq!(parse_ranges("3-5,8", 100), vec![(3, 5), (8, 8)]);
    assert_eq!(parse_ranges("5-3", 100), vec![(3, 5)]);
    assert_eq!(parse_ranges("x", 100), Vec::<(usize, usize)>::new());
    assert_eq!(parse_ranges(" 9 - 200 , 200", 100), vec![(9, 100)]);
    let title = write_title("a.rs", &vec![(3, 5), (8, 8)]);
    assert_eq!(title, "a.rs  [3-5, 8]");
    // The title is drawn with a space before it.
    let col = title.find("8").unwrap() + 1;
    assert_eq!(range_in_title("a.rs", &vec![(3, 5), (8, 8)], col, 80), Some((8, 8)));
    assert_eq!(range_in_title("a.rs", &vec![(3, 5), (8, 8)], col, 10), None);
    assert_eq!(range_in_title("a.rs", &vec![(3, 5), (8, 8)], 0, 80), None);
}

#[test]
fn long_lines_take_several_rows() {
    assert_eq!(row_count(0, 10), 1);
    assert_eq!(row_count(10, 10), 1);
    assert_eq!(row_count(11, 10), 2);
    assert_eq!(line_number_width(1), line_number_width(9));
    // The numbers of the lines take three columns, and the gap behind them as many.
    assert_eq!(content_width(80, 100), 74);
    assert_eq!(content_width(3, 100), 1);
}

#[test]
fn track_reaches_both_ends() {
    let s = ScrollState { scroll: 0, scroll_max: 100, page_size: 10 };
    assert_eq!(scroll_from_y(0, 10, s), 0);
    assert_eq!(scroll_from_y(9, 10, s), 90);
    assert!(is_on_thumb(0, 10, s));
    assert!(!is_on_thumb(9, 10, s));
    // A thumb that is dragged nowhere leaves the page where it is.
    assert_eq!(scroll_from_drag(37, 3, 3, 10, s), 37);
}

#[test]
fn texts_are_quoted_for_the_shell() {
    assert_eq!(sh_quote("a b"), "'a b'");
    assert_eq!(sh_quote("it's"), "'it'\\''s'");
    assert_eq!(sh_quote(""), "''");
}

#[test]
fn placeholders_are_expanded() {
    let run = |cmd: &str| {
        expand_placeholders(cmd, "/repo/src/a b.rs", "/repo", Some("/repo"), Some("/repo"))
    };
    assert_eq!(run("ls -l"), Ok("ls -l".to_string()));
    assert_eq!(run("cat %").unwrap(), "cat 'src/a b.rs'");
    assert_eq!(run("ls %d %dir").unwrap(), "ls 'src' 'src'");
    assert_eq!(run("cd %c && cd %repo").unwrap(), "cd '/repo' && cd '/repo'");
    // A name that goes on is no placeholder of its own.
    assert_eq!(run("%directory").unwrap(), "'src/a b.rs'directory");
    assert_eq!(
        expand_placeholders("cd %crate", "/x/y.rs", "/x", None, None),
        Err("no Cargo.toml found (needed by %crate)".to_string())
    );
    assert_eq!(
        expand_placeholders("cd %r", "/x/y.rs", "/x", None, None),
        Err("no .git found (needed by %r)".to_string())
    );
}

#[test]
fn ranges_are_found_where_they_are_written() {
    // The padded title is " [deleted] a  [3] ".
    for col in 0..20 {
        let expected = if col == 15 { Some((3, 3)) } else { None };
        assert_eq!(range_in_title("[deleted] a", &vec![(3, 3)], col, 80), expected);
    }
    let ranges = vec![(1, 2), (10, 10)];
    let shown = format!(" {} ", write_title("a[0].rs", &ranges));
    assert_eq!(shown, " a[0].rs  [1-2, 10] ");
    for col in 0..shown.len() {
        let expected = match col {
            11..=13 => Some((1, 2)),
            16..=17 => Some((10, 10)),
            _ => None,
        };
        assert_eq!(range_in_title("a[0].rs", &ranges, col, 80), expected);
    }
}

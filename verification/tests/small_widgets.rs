use slio_git::path::{file_name_or_path, parent_if_non_empty};
use slio_git::ui::scrollable::{scrollbar_metrics, ScrollbarRole};
use slio_git::ui::statusbar::truncate_middle;
use slio_git::ui::syntax::{sanitize_content, syntax_for_path};

#[test]
fn inline_scrollbars_are_quieter_than_pane_scrollbars() {
    let pane = scrollbar_metrics(ScrollbarRole::Pane);
    let inline = scrollbar_metrics(ScrollbarRole::Inline);
    assert!(inline.width < pane.width);
    assert!(inline.scroller_width <= pane.scroller_width);
}

#[test]
fn truncate_middle_keeps_both_ends() {
    assert_eq!(truncate_middle("/Users/wanghao/git/slio-git", 18), "/Users/w…slio-git");
}

#[test]
fn truncate_middle_leaves_short_strings_untouched() {
    assert_eq!(truncate_middle("src-ui", 18), "src-ui");
}

#[test]
fn truncate_middle_never_exceeds_the_limit() {
    for max in 1..30 {
        let out = truncate_middle("/a/very/long/path/to/some/deeply/nested/file.rs", max);
        assert!(out.chars().count() <= max, "{max}: {out}");
    }
    assert_eq!(truncate_middle("abcdef", 0), "…");
}

#[test]
fn truncate_middle_drops_separators_after_the_ellipsis() {
    assert_eq!(truncate_middle("abcdef//gh", 6), "ab…gh");
}

#[test]
fn sanitize_content_keeps_empty_lines_visible() {
    assert_eq!(sanitize_content(""), " ");
    assert_eq!(sanitize_content("\tlet value = 1;"), "    let value = 1;");
}

#[test]
fn syntax_follows_the_lowercase_extension() {
    assert_eq!(syntax_for_path(Some("src/Main.RS")), "rs");
    assert_eq!(syntax_for_path(Some("Makefile")), "txt");
    assert_eq!(syntax_for_path(None), "txt");
}

#[test]
fn shown_names_fall_back_as_documented() {
    assert_eq!(file_name_or_path("src/a.rs", Some("a.rs".to_string())), "a.rs");
    assert_eq!(file_name_or_path("..", None), "..");
    assert_eq!(parent_if_non_empty(Some("src".to_string())), Some("src".to_string()));
    assert_eq!(parent_if_non_empty(Some(String::new())), None);
    assert_eq!(parent_if_non_empty(None), None);
}

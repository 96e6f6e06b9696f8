use tui_components::diff::{DiffEmphasis, DiffStyle, DiffViewer};
use tui_components::geometry::{LayoutProposal, Rect};

fn display_width(text: &str) -> usize {
    ratatui::text::Line::from(text).width()
}

fn layout(viewer: &mut DiffViewer, width: u16, height: u16) {
    viewer.layout(Rect::new(0, 0, width, height));
}

#[test]
fn measurement_obeys_row_bounds() {
    let short = DiffViewer::new("", "").min_rows(4).max_rows(7);
    let tall_new = (0..20).map(|n| format!("{n}\n")).collect::<String>();
    let tall = DiffViewer::new("", &tall_new).min_rows(2).max_rows(5);
    assert_eq!(short.measure(LayoutProposal::unbounded()).preferred.height, 4);
    assert_eq!(tall.measure(LayoutProposal::unbounded()).preferred.height, 5);
}

#[test]
fn row_bound_builders_are_order_independent_above_defaults() {
    let min_then_max = DiffViewer::new("", "").min_rows(30).max_rows(40);
    let max_then_min = DiffViewer::new("", "").max_rows(40).min_rows(30);

    assert_eq!(min_then_max.min_rows, 30);
    assert_eq!(min_then_max.max_rows, 40);
    assert_eq!(
        (min_then_max.min_rows, min_then_max.max_rows),
        (max_then_min.min_rows, max_then_min.max_rows)
    );
}

#[test]
fn side_by_side_header_separator_matches_unicode_body_separator() {
    let viewer = DiffViewer::new("α🌍\n", "β界\n").labels("旧🌍", "新界");
    let lines = viewer.plain_lines();
    let separator_columns = lines
        .iter()
        .filter_map(|line| line.split_once('│').map(|(left, _)| display_width(left)))
        .collect::<Vec<_>>();

    assert_eq!(separator_columns.len(), 3);
    assert!(separator_columns
        .iter()
        .all(|column| *column == separator_columns[0]));
    assert!(lines.iter().any(|line| line.contains("@@") && line.contains('│')));
}

#[test]
fn raw_patch_emits_valid_ranges_for_insert_delete_and_multiple_hunks() {
    let insertion = DiffViewer::new("", "追加\n").style(DiffStyle::RawPatch);
    assert_eq!(
        insertion.plain_lines(),
        ["--- old", "+++ new", "@@ -0,0 +1,1 @@", "+追加"]
    );

    let deletion = DiffViewer::new("gone\n", "").style(DiffStyle::RawPatch);
    assert_eq!(
        deletion.plain_lines(),
        ["--- old", "+++ new", "@@ -1,1 +0,0 @@", "-gone"]
    );

    let multiple = DiffViewer::new("a\nb\nc\nd\ne\n", "A\nb\nc\nd\nE\n")
        .style(DiffStyle::RawPatch)
        .context_lines(0);
    assert_eq!(
        multiple.plain_lines(),
        [
            "--- old",
            "+++ new",
            "@@ -1,1 +1,1 @@",
            "-a",
            "+A",
            "@@ -5,1 +5,1 @@",
            "-e",
            "+E",
        ]
    );
}

#[test]
fn raw_patch_places_newline_marker_after_affected_emitted_line() {
    let viewer = DiffViewer::new("", "last").style(DiffStyle::RawPatch);

    assert_eq!(
        viewer.plain_lines(),
        [
            "--- old",
            "+++ new",
            "@@ -0,0 +1,1 @@",
            "+last",
            "\\ No newline at end of file",
        ]
    );
}

#[test]
fn raw_patch_is_empty_for_identical_lf_text_with_trailing_newline() {
    let viewer = DiffViewer::new("same\ntext\n", "same\ntext\n").style(DiffStyle::RawPatch);

    assert_eq!(viewer.plain_lines(), Vec::<String>::new());
}

#[test]
fn raw_patch_is_empty_for_identical_text_without_trailing_newline() {
    let viewer = DiffViewer::new("same\ntext", "same\ntext").style(DiffStyle::RawPatch);

    assert_eq!(viewer.plain_lines(), Vec::<String>::new());
}

#[test]
fn raw_patch_is_empty_for_crlf_and_lf_normalized_equality() {
    let viewer = DiffViewer::new("same\r\ntext\r\n", "same\ntext\n").style(DiffStyle::RawPatch);

    assert_eq!(viewer.plain_lines(), Vec::<String>::new());
}

#[test]
fn non_raw_styles_show_identical_content() {
    for style in [DiffStyle::SideBySide, DiffStyle::Inline, DiffStyle::Word] {
        let viewer = DiffViewer::new("same\n", "same\n").style(style);

        assert!(viewer.plain_lines().iter().any(|line| line.contains("same")));
    }
}

#[test]
fn crlf_and_trailing_newline_are_handled() {
    let same = DiffViewer::new("a\r\nb\r\n", "a\nb\n").style(DiffStyle::RawPatch);
    assert!(!same.plain_lines().iter().any(|line| line.starts_with("@@")));
    let missing = DiffViewer::new("a\n", "a").style(DiffStyle::RawPatch);
    assert!(missing
        .plain_lines()
        .iter()
        .any(|line| line == "\\ No newline at end of file"));
}

#[test]
fn headers_toggle_removes_only_metadata_in_every_style() {
    let expected = [
        (DiffStyle::SideBySide, vec!["1 - one │ 1 + two"]),
        (DiffStyle::Inline, vec!["1   - one", "  1 + two"]),
        (DiffStyle::Word, vec!["1   - one", "  1 + two"]),
        (DiffStyle::RawPatch, vec!["-one", "+two"]),
    ];

    for (style, rows) in expected {
        let mut viewer = DiffViewer::new("one\n", "two\n").style(style);
        assert!(viewer.headers_visible());
        assert!(viewer
            .plain_lines()
            .iter()
            .any(|row| row.starts_with("@@") || row.contains("old")));

        viewer.set_show_headers(false);

        assert!(!viewer.headers_visible());
        assert_eq!(viewer.plain_lines(), rows);
    }
}

#[test]
fn hiding_headers_keeps_no_newline_marker() {
    let viewer = DiffViewer::new("one\n", "two")
        .style(DiffStyle::RawPatch)
        .show_headers(false);

    assert_eq!(
        viewer.plain_lines(),
        ["-one", "+two", "\\ No newline at end of file"]
    );
}

#[test]
fn narrow_side_by_side_hunks_do_not_create_divider_only_spacer_rows() {
    let mut viewer = DiffViewer::new("one\ntwo\nthree\n", "one\nchanged\nthree\n")
        .show_headers(true)
        .wrap(true);
    layout(&mut viewer, 25, 20);

    assert!(viewer
        .display_plain_lines()
        .iter()
        .any(|line| line.contains("@@") && line.contains('│')));
    assert!(!viewer
        .display_plain_lines()
        .iter()
        .any(|line| line.trim() == "│"));
}

#[test]
fn side_by_side_wrapping_aligns_every_continuation_divider() {
    let mut viewer = DiffViewer::new(
        "left side has substantially more text\n",
        "right side is even longer than the left side text\n",
    )
    .show_headers(false)
    .wrap(true);
    layout(&mut viewer, 25, 10);
    let columns = viewer
        .display_plain_lines()
        .iter()
        .filter_map(|row| row.split_once('│').map(|(left, _)| display_width(left)))
        .collect::<Vec<_>>();

    assert!(columns.len() > 1);
    assert!(columns.iter().all(|column| *column == columns[0]));
    assert!(viewer.display_plain_lines()[1].starts_with("    "));
}

#[test]
fn raw_patch_logical_rows_do_not_change_when_wrapping_toggles() {
    let mut viewer =
        DiffViewer::new("before\n", "after with a long line\n").style(DiffStyle::RawPatch);
    let logical = viewer.plain_lines();

    viewer.set_wrap(true);
    layout(&mut viewer, 8, 4);
    assert_ne!(viewer.display_plain_lines(), logical);
    assert_eq!(viewer.plain_lines(), logical);

    viewer.set_wrap(false);
    assert_eq!(viewer.plain_lines(), logical);
}

#[test]
fn wrapped_continuation_rows_sit_behind_the_sign_column() {
    let mut viewer = DiffViewer::new("", "  αβγδεζηθ\n")
        .style(DiffStyle::RawPatch)
        .show_headers(false)
        .wrap(true);
    layout(&mut viewer, 5, 2);

    assert_eq!(viewer.display_plain_lines()[0], "+  α");
    assert!(viewer.display_plain_lines()[1].starts_with(" βγδ"));
    assert!(viewer.display_plain_lines().len() > 2);
}

#[test]
fn inline_rows_number_both_sides_and_keep_context() {
    let viewer = DiffViewer::new("same\nbefore\nlast\n", "same\nafter\nlast\n").style(DiffStyle::Inline);
    assert_eq!(
        viewer.plain_lines(),
        [
            "--- old",
            "+++ new",
            "@@ -1,3 +1,3 @@",
            "1 1   same",
            "2   - before",
            "  2 + after",
            "3 3   last",
        ]
    );
}

#[test]
fn context_lines_split_distant_changes_into_hunks() {
    let old = (1..=12).map(|n| format!("line {n}\n")).collect::<String>();
    let new = old.replace("line 2\n", "line two\n").replace("line 11\n", "line eleven\n");
    let viewer = DiffViewer::new(&old, &new).style(DiffStyle::RawPatch).context_lines(1);
    let headers = viewer
        .plain_lines()
        .into_iter()
        .filter(|line| line.starts_with("@@"))
        .collect::<Vec<_>>();
    assert_eq!(headers, ["@@ -1,3 +1,3 @@", "@@ -10,3 +10,3 @@"]);

    let joined = DiffViewer::new(&old, &new).style(DiffStyle::RawPatch).context_lines(4);
    let headers = joined
        .plain_lines()
        .into_iter()
        .filter(|line| line.starts_with("@@"))
        .collect::<Vec<_>>();
    assert_eq!(headers, ["@@ -1,12 +1,12 @@"]);
}

#[test]
fn side_by_side_pairs_removed_and_added_lines() {
    let viewer = DiffViewer::new("a\nb\nc\n", "x\nc\n").show_headers(false);
    assert_eq!(
        viewer.plain_lines(),
        ["1 - a │ 1 + x", "2 - b │ ", "3   c │ 2   c"]
    );
}

#[test]
fn word_style_highlights_unicode_change() {
    let viewer = DiffViewer::new("hello 🌍", "hello 🌎").style(DiffStyle::Word);
    let lines = viewer.styled_lines();
    assert!(lines
        .iter()
        .flat_map(|line| &line.spans)
        .any(|span| span.content.contains('🌎') && span.emphasis == DiffEmphasis::Added));
}

#[test]
fn word_emphasis_survives_wrapping() {
    let mut viewer = DiffViewer::new("prefix oldword suffix", "prefix newword suffix")
        .style(DiffStyle::Word)
        .show_headers(false)
        .wrap(true);
    layout(&mut viewer, 10, 10);

    let emphasized = viewer
        .styled_lines()
        .iter()
        .flat_map(|line| &line.spans)
        .filter(|span| span.emphasis == DiffEmphasis::Added)
        .map(|span| span.content.as_str())
        .collect::<String>();
    assert!(emphasized.contains("newword"));
}

#[test]
fn word_style_marks_dropped_and_added_words_of_paired_lines() {
    let viewer = DiffViewer::new("keep old tail\n", "keep new tail\n")
        .style(DiffStyle::Word)
        .show_headers(false);
    let lines = viewer.styled_lines();
    let texts = lines
        .iter()
        .map(|line| line.spans.iter().map(|span| span.content.as_str()).collect::<String>())
        .collect::<Vec<_>>();
    assert_eq!(texts, viewer.plain_lines());
    let removed = lines[0]
        .spans
        .iter()
        .filter(|span| span.emphasis == DiffEmphasis::Removed)
        .map(|span| span.content.as_str())
        .collect::<String>();
    let added = lines[1]
        .spans
        .iter()
        .filter(|span| span.emphasis == DiffEmphasis::Added)
        .map(|span| span.content.as_str())
        .collect::<String>();
    assert_eq!(removed, "old");
    assert_eq!(added, "new");
}

#[test]
fn other_styles_draw_plain_spans() {
    let viewer = DiffViewer::new("a\n", "b\n").style(DiffStyle::Inline);
    assert!(viewer
        .styled_lines()
        .iter()
        .flat_map(|line| &line.spans)
        .all(|span| span.emphasis == DiffEmphasis::Plain));
}

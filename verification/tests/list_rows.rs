use gg::layout::{fg_style, plain_style, search_match_style, Color, SpanStyle};
use gg::list_view::{commit_row, graph_spans, gutter_span, gutter_width, list_top};
use gg::repo::{BranchName, Commit};
use gg::sha::Sha;

fn sha(n: u8) -> Sha {
    let mut bytes = [0u8; 20];
    bytes[0] = n;
    Sha { bytes }
}

fn commit() -> Commit {
    Commit {
        sha: sha(0xab),
        parent_shas: vec![sha(1)],
        message: "Fix main loop".to_string(),
        author: "Lin".to_string(),
        timestamp: 0,
    }
}

fn bold(c: Color) -> SpanStyle {
    SpanStyle { fg: Some(c), bg: None, bold: true, underlined: false }
}

fn texts(spans: &[gg::layout::Span]) -> Vec<&str> {
    spans.iter().map(|s| s.text.as_str()).collect()
}

#[test]
fn gutter_marks_selection_and_distances() {
    let s = gutter_span(5, 5, 2);
    assert_eq!(s.text, "▶ ");
    assert_eq!(s.style, fg_style(Color::Gray));
    let s = gutter_span(2, 14, 3);
    assert_eq!(s.text, " 12");
    assert_eq!(s.style, fg_style(Color::DarkGray));
    assert_eq!(gutter_span(20, 7, 1).text, "13");
    assert_eq!(gutter_width(9), 1);
    assert_eq!(gutter_width(10), 2);
    assert_eq!(gutter_width(999), 3);
    assert_eq!(gutter_width(1000), 4);
}

#[test]
fn graph_cells_take_lane_colours() {
    let row = vec![('│', Some(0)), ('●', Some(1)), ('─', None), ('╮', Some(6))];
    let spans = graph_spans(&row);
    assert_eq!(texts(&spans), vec!["│", "●", "─", "╮"]);
    assert_eq!(spans[0].style, fg_style(Color::Red));
    assert_eq!(spans[1].style, fg_style(Color::Blue));
    assert_eq!(spans[2].style, fg_style(Color::Gray));
    assert_eq!(spans[3].style, fg_style(Color::Magenta));
    let wide: Vec<(char, Option<usize>)> = (0..20).map(|i| ('│', Some(i))).collect();
    assert_eq!(graph_spans(&wide).len(), 16);
}

#[test]
fn head_row_has_head_and_branch_labels() {
    let c = commit();
    let branches = vec![
        (BranchName("main".to_string()), sha(0xab)),
        (BranchName("elsewhere".to_string()), sha(2)),
        (BranchName("origin/main".to_string()), sha(0xab)),
    ];
    let graph = vec![('│', Some(0)), ('●', Some(1))];
    let head_branch = Some("main".chars().collect());
    let cells = commit_row(&c, &graph, &branches, &sha(0xab), &head_branch, 3, 3, 2, "", "Jan 1, 2024", "9:00 AM");
    assert_eq!(texts(&cells.message), vec!["(", "HEAD", " → ", "main", ", ", "origin/main", ") ", "Fix main loop"]);
    assert_eq!(cells.message[1].style, bold(Color::Cyan));
    assert_eq!(cells.message[3].style, bold(Color::Blue));
    assert_eq!(cells.message[0].style, bold(Color::Yellow));
    assert!(cells.selected);
    assert_eq!(texts(&cells.sha), vec!["ab00000"]);
    assert_eq!(cells.date[0].style, SpanStyle { fg: None, bg: None, bold: true, underlined: false });
}

#[test]
fn plain_row_without_labels_paints_matches() {
    let c = commit();
    let branches = vec![(BranchName("main".to_string()), sha(9))];
    let graph = vec![('●', Some(0))];
    let cells = commit_row(&c, &graph, &branches, &sha(9), &None, 0, 4, 1, "main", "d", "t");
    assert_eq!(texts(&cells.message), vec!["Fix ", "main", " loop"]);
    assert_eq!(cells.message[0].style, plain_style());
    assert_eq!(cells.message[1].style, search_match_style());
    assert!(!cells.selected);
    assert_eq!(cells.gutter.text, "4");
    assert_eq!(cells.author[0].style, fg_style(Color::Gray));
    assert_eq!(cells.time[0].style, fg_style(Color::DarkGray));
}

#[test]
fn detached_head_shows_head_only() {
    let c = commit();
    let graph = vec![('●', Some(0))];
    let cells = commit_row(&c, &graph, &Vec::new(), &sha(0xab), &None, 0, 0, 1, "", "d", "t");
    assert_eq!(texts(&cells.message), vec!["(", "HEAD", ") ", "Fix main loop"]);
}

#[test]
fn list_follows_selection_with_details_open() {
    assert_eq!(list_top(true, 10, 0, 100, 5), 8);
    assert_eq!(list_top(true, 1, 0, 100, 5), 0);
    assert_eq!(list_top(true, 99, 0, 100, 5), 95);
    assert_eq!(list_top(false, 99, 42, 100, 5), 42);
}

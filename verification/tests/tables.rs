use localtex::html::{cell_text_from_html, html_to_latex, html_to_markdown, parse_html};
use localtex::table::{Cell, Slot, Table};
use localtex::cells::{cell_display_text, looks_like_html_table, looks_like_list};
use localtex::tabular::{latex_to_html, parse_tabular};

const SAMPLE: &str = r#"<table><tr><td></td><td>AP</td><td>AP50</td><td>AP75</td></tr><tr><td>初版（错误归一化）</td><td>48.48</td><td>83.68</td><td>50.96</td></tr><tr><td>800 定稿（本次）</td><td>54.20</td><td>88.09</td><td>58.14</td></tr></table>"#;

fn cell(text: &str, rowspan: usize, colspan: usize) -> Cell {
    Cell { text: text.to_string(), rowspan, colspan }
}

#[test]
fn markdown_pipe_table() {
    let md = html_to_markdown(SAMPLE);
    assert!(md.contains("| AP | AP50 | AP75 |"), "{md}");
    assert!(md.contains("| :--- | :--- | :--- | :--- |"), "{md}");
    assert!(md.contains("| 初版（错误归一化） | 48.48 | 83.68 | 50.96 |"), "{md}");
    assert!(md.contains("| 800 定稿（本次） | 54.20 | 88.09 | 58.14 |"), "{md}");
}

#[test]
fn latex_tabular() {
    let tex = html_to_latex(SAMPLE);
    assert!(tex.contains("\\begin{tabular}[t]{|l|l|l|l|}"), "{tex}");
    assert!(tex.contains(" & AP & AP50 & AP75 \\\\"), "{tex}");
    assert!(tex.contains("初版（错误归一化） & 48.48"), "{tex}");
    assert!(tex.contains("\\end{tabular}"), "{tex}");
    let html = latex_to_html(&tex).expect("parse tabular");
    assert!(html.contains("<table>"), "{html}");
    assert!(html.contains("AP50"), "{html}");
    assert!(html.contains("54.20"), "{html}");
}

#[test]
fn colspan_expands() {
    let html = r#"<table><tr><td colspan="2">ab</td></tr><tr><td>a</td><td>b</td></tr></table>"#;
    let t = parse_html(html).unwrap();
    let grid = t.plain_rows();
    assert_eq!(grid[0], vec!["ab".to_string(), String::new()]);
    assert_eq!(grid[1], vec!["a".to_string(), "b".to_string()]);
}

#[test]
fn math_in_cell_kept() {
    let html = r#"<table><tr><th>x</th></tr><tr><td>$\lambda=1$</td></tr></table>"#;
    let md = html_to_markdown(html);
    assert!(md.contains("$\\lambda=1$"), "{md}");
    let tex = html_to_latex(html);
    assert!(tex.contains("$\\lambda=1$"), "{tex}");
}

#[test]
fn latex_keeps_rowspan_and_colspan() {
    let html = r#"<table><tr><td rowspan="2">A</td><td colspan="2">BC</td></tr><tr><td>B</td><td>C</td></tr></table>"#;
    let tex = html_to_latex(html);
    assert!(tex.contains("\\multirow{2}{*}{A}"), "{tex}");
    assert!(tex.contains("\\multicolumn{2}{|c|}{BC}"), "{tex}");
    assert!(tex.contains("B & C"), "{tex}");
    let md = html_to_markdown(html);
    assert!(md.contains("| A | BC |  |"), "markdown stays a flattened pipe table: {md}");
}

#[test]
fn html_lists_in_cells_become_markdown_list_lines() {
    let html = r#"<table><tr><th>Steps</th></tr><tr><td><ul><li>one</li><li>two</li></ul></td></tr></table>"#;
    let t = parse_html(html).unwrap();
    assert_eq!(t.rows[1][0].text, "- one\n- two");
    let md = html_to_markdown(html);
    assert!(md.contains("- one<br>- two"), "{md}");
    let tex = html_to_latex(html);
    assert!(tex.contains("\\shortstack[l]"), "{tex}");
    assert!(tex.contains("one"), "{tex}");

    let ordered = r#"<table><tr><td><ol><li>first</li><li>second</li></ol></td></tr></table>"#;
    let t = parse_html(ordered).unwrap();
    assert_eq!(t.rows[0][0].text, "1. first\n2. second");
    let md = html_to_markdown(ordered);
    assert!(md.contains("1. first<br>2. second"), "{md}");

    let brs = r#"<table><tr><td>- a<br>- b</td></tr></table>"#;
    let t = parse_html(brs).unwrap();
    assert_eq!(t.rows[0][0].text, "- a\n- b");
}

#[test]
fn text_without_table_is_returned_trimmed() {
    assert_eq!(html_to_markdown("  plain words \n"), "plain words");
    assert_eq!(html_to_latex("\t<table></table> "), "<table></table>");
    assert!(parse_html("<table><tr></tr></table>").is_none());
}

#[test]
fn cell_text_decodes_entities_and_drops_tags() {
    let t: Vec<char> = "<b>a &amp; b</b>&nbsp;<i>c</i><br/>d</p>".chars().collect();
    let out: String = cell_text_from_html(&t).into_iter().collect();
    assert_eq!(out, "a & b c\nd");
    let stray: Vec<char> = "<li> x </li><li></li>".chars().collect();
    let out: String = cell_text_from_html(&stray).into_iter().collect();
    assert_eq!(out, "- x");
}

#[test]
fn span_attributes_last_one_wins_and_zero_is_one() {
    let html = r#"<table><tr><td ROWSPAN='3' rowspan=2 colspan="0">x</td></tr></table>"#;
    let t = parse_html(html).unwrap();
    assert_eq!(t.rows[0][0].rowspan, 2);
    assert_eq!(t.rows[0][0].colspan, 1);
}

#[test]
fn tabular_reads_spans_and_skips_hlines() {
    let tex = "\\begin{tabular}{|c|c|}\\hline \\multicolumn{2}{|c|}{AB} \\\\ \\hline \\multirow{2}{*}{x} & y \\\\ \\end{tabular}";
    let t = parse_tabular(tex).expect("tabular");
    assert_eq!(t.rows.len(), 2);
    assert_eq!(t.rows[0], vec![cell("AB", 1, 2)]);
    assert_eq!(t.rows[1], vec![cell("x", 2, 1), cell("y", 1, 1)]);
}

#[test]
fn tabular_unwraps_shortstack_and_braces() {
    let tex = "\\begin{tabular}[t]{l}\\shortstack[l]{- one \\\\ - two} \\\\ {a & b} \\end{tabular}";
    let t = parse_tabular(tex).expect("tabular");
    assert_eq!(t.rows[0][0].text, "- one\n - two");
    assert_eq!(t.rows[1][0].text, "{a & b}");
}

#[test]
fn tabular_rejects_other_text() {
    assert!(parse_tabular("no table").is_none());
    assert!(parse_tabular("\\begin{tabular}{l} \\end{tabular}").is_none());
    assert!(parse_tabular("\\begin{tabular}{l a \\end{tabular}").is_none());
    assert!(latex_to_html("x").is_none());
}

#[test]
fn html_of_spans_and_escapes() {
    let t = Table { rows: vec![vec![cell("a<b", 2, 1), cell("&", 1, 3)]] };
    assert_eq!(
        t.to_html(),
        "<table><tr><td rowspan=\"2\">a&lt;b</td><td colspan=\"3\">&amp;</td></tr></table>"
    );
}

#[test]
fn slot_grid_marks_spans() {
    let t = Table {
        rows: vec![vec![cell("A", 2, 1), cell("B", 1, 2)], vec![cell("C", 1, 1)]],
    };
    let g = t.slot_grid();
    assert_eq!(g.len(), 2);
    assert_eq!(
        g[0],
        vec![
            Slot::Origin { text: "A".into(), rowspan: 2, colspan: 1 },
            Slot::Origin { text: "B".into(), rowspan: 1, colspan: 2 },
            Slot::ColSpan
        ]
    );
    assert_eq!(g[1][0], Slot::RowSpan);
    assert_eq!(g[1][1], Slot::Origin { text: "C".into(), rowspan: 1, colspan: 1 });
}

#[test]
fn tsv_joins_with_tabs() {
    let t = Table { rows: vec![vec![cell("a", 1, 1), cell("b", 1, 1)], vec![cell("c", 1, 2)]] };
    assert_eq!(t.to_tsv(), "a\tb\nc\t");
}

#[test]
fn list_detection_needs_every_line_marked() {
    assert!(looks_like_list("- a\n* b\n+ c"));
    assert!(looks_like_list("  1. one\n\n12) twelve  "));
    assert!(!looks_like_list("- a\nplain"));
    assert!(!looks_like_list("1.x"));
    assert!(!looks_like_list("   \n  "));
}

#[test]
fn display_text_keeps_list_lines_and_collapses_prose() {
    assert_eq!(cell_display_text("  - a  \n\n  - b "), "- a\n- b");
    assert_eq!(cell_display_text("wrapped\n  ocr   text "), "wrapped ocr text");
}

#[test]
fn html_table_detection_ignores_ascii_case() {
    assert!(looks_like_html_table("x <TaBlE border=1>"));
    assert!(!looks_like_html_table("<tab le>"));
}

#[test]
fn display_text_is_stable_when_shown_again() {
    for s in ["  - a  \n\n  - b ", "wrapped\n  ocr   text ", "- a\nplain", "", " \t\n", "1. x\n2) y"] {
        let once = cell_display_text(s);
        assert_eq!(cell_display_text(&once), once);
    }
}

#[test]
fn plain_tables_read_back_from_latex() {
    let t = Table {
        rows: vec![
            vec![cell("Method", 1, 1), cell("AP 50", 1, 1), cell("x.y", 1, 1)],
            vec![cell("初版", 1, 1), cell("48.48", 1, 1), cell("(a) b", 1, 1)],
        ],
    };
    let tex = t.to_latex();
    assert_eq!(parse_tabular(&tex), Some(t.clone()));
    let one = Table { rows: vec![vec![cell("a", 1, 1)]] };
    assert_eq!(parse_tabular(&one.to_latex()), Some(one.clone()));
}

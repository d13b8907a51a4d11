use nippo::markdown::{render_markdown, sanitize_link};
use nippo::render::{
    assemble_document, chart_requests, numeric_text, render_document, render_labeled_cards, render_metric_cards,
    render_review_visualizations, render_trend_visualizations, render_visualizations,
    HtmlReportMode,
};
use nippo::sections::{
    document_title, has_section, labeled_list_in_section, parse_labeled_bullet, parse_table,
    section_table, strip_order_prefix, subheadings_in_section, subsections_in_section,
    table_after_heading,
};
use nippo::text::escape_html;

const TREND: &str = r#"# トレンド分析 2026年9月1日（過去90日間）

## 期間の概要

| 指標 | 前期 | 中期 | 後期 |
|---|---:|---:|---:|
| セッション数 | 10 | 20 | 30 |
| ツール使用回数 | 100 | 150 | 120 |

## ツール使用の変化

| ツール | 前期 | 中期 | 後期 | 変化の傾向 |
|---|---:|---:|---:|---|
| Read | 20 (20%) | 30 (30%) | 40 (40%) | 増加 |
| Edit | 30 (30%) | 20 (20%) | 10 (10%) | 減少 |

## 活動量の推移

| 指標 | 前期 | 中期 | 後期 |
|---|---:|---:|---:|
| 1日あたりセッション数 | 1.0 | 2.0 | 3.0 |
| 1日あたりメッセージ数 | 10 | 20 | 25 |

## 全体を通して見える変化

本文に <script>alert("危険")</script> を書いても実行されない。
"#;

const INSIGHT: &str = r#"# Insight 2026年9月1日（過去7日間）

## 期間の概要

- 対象期間: 2026/08/26 〜 2026/09/01
- セッション数: 12
- プロジェクト数: 2

### プロジェクト別サマリー

| プロジェクト | セッション数 | メッセージ数 | 主な作業 |
|---|---:|---:|---|
| nippo | 8 | 120 | HTMLレポート |
| sample | 4 | 40 | 調査 |

### ツール使用傾向

| ツール | 使用回数 | 割合 |
|---|---:|---:|
| Read | 30 | 60% |
| Edit | 20 | 40% |

## 振り返り（ALACT モデル）

### A. 行動を振り返る（Looking back on the Action）

確認できた事実を書く。

### B. 本質への気づき（Awareness of essential aspects）

推測は推測として書く。

### C. 概念化（Creating alternative methods of action）

別の方法を検討する。

### D. 来週の実験（Trial）

小さな実験を提案する。

## あなたの番

- 自分の実感は？
  >
"#;

const REVIEW: &str = r#"# 自己評価レビュー 2026年9月1日（過去90日間）

## 期間サマリー

- 対象期間: 2026/06/04 〜 2026/09/01
- 稼働セッション数: 120
- 関わったプロジェクト数: 3

## 主要な成果

### 1. nippo

- **成果**: HTMLレポートを追加した
- **インパクト**: 期間の変化を把握しやすくした

### 2. sample

- **成果**: 安全な変換処理を実装した
- **インパクト**: 生HTMLの実行を防いだ

## 定量データ

| 指標 | 値 |
|---|---:|
| 総セッション数 | 120 |
| 総メッセージ数 | 3,400 |
| 意思決定ポイント数 | 24 |

## 技術的な成長

安全なHTML変換を理解した。

## 課題と学び

テンプレート構造との結合をテストする。

## 次期の目標

1. 視覚化の回帰を防ぐ
"#;

/// Stands in for a drawn chart (drawing is done outside the library); the
/// marker shows where the library places the chart it is given.
fn placed_chart(name: &str) -> Option<String> {
    Some(format!("<figure data-chart=\"{name}\"></figure>"))
}

#[test]
fn escape_html_replaces_markup_characters() {
    assert_eq!(
        escape_html("<a href=\"x\">'&'</a>"),
        "&lt;a href=&quot;x&quot;&gt;&#39;&amp;&#39;&lt;/a&gt;"
    );
    assert_eq!(escape_html("日本語"), "日本語");
    assert!(!escape_html("<<>>\"'").contains('<'));
}

#[test]
fn strip_order_prefix_drops_numbers_and_capitals() {
    assert_eq!(strip_order_prefix("1. nippo"), "nippo");
    assert_eq!(strip_order_prefix("12. nippo"), "nippo");
    assert_eq!(strip_order_prefix("A. 行動を振り返る"), "行動を振り返る");
    assert_eq!(strip_order_prefix("AB. x"), "AB. x");
    assert_eq!(strip_order_prefix("a. x"), "a. x");
    assert_eq!(strip_order_prefix(". x"), "x");
    assert_eq!(strip_order_prefix("no prefix"), "no prefix");
}

#[test]
fn labeled_bullet_is_split_at_first_colon() {
    assert_eq!(
        parse_labeled_bullet("- **成果**: HTMLレポートを**追加**した"),
        Some(("成果".to_string(), "HTMLレポートを追加した".to_string()))
    );
    assert_eq!(
        parse_labeled_bullet("  - key: `a:b`  "),
        Some(("key".to_string(), "a:b".to_string()))
    );
    assert_eq!(parse_labeled_bullet("- no colon"), None);
    assert_eq!(parse_labeled_bullet("plain: text"), None);
}

#[test]
fn parse_table_drops_alignment_rows() {
    let lines = vec![
        "| 指標 | 値 |".to_string(),
        "|---|---:|".to_string(),
        "| a | `1` |".to_string(),
    ];
    assert_eq!(
        parse_table(&lines),
        Some(vec![
            vec!["指標".to_string(), "値".to_string()],
            vec!["a".to_string(), "1".to_string()],
        ])
    );
    assert_eq!(parse_table(&lines[..1]), None);
    let only_header = vec!["| a | b |".to_string(), "|:-:|---|".to_string()];
    assert_eq!(parse_table(&only_header), None);
}

#[test]
fn tables_are_found_under_their_headings() {
    let table = section_table(TREND, "ツール使用の変化").expect("table");
    assert_eq!(table.len(), 3);
    assert_eq!(table[0].len(), 5);
    assert_eq!(table[1][1], "20 (20%)");
    let projects = table_after_heading(INSIGHT, "### プロジェクト別サマリー").expect("table");
    assert_eq!(projects[2], vec!["sample", "4", "40", "調査"]);
    assert!(section_table(TREND, "全体を通して見える変化").is_none());
    assert!(table_after_heading(TREND, "## missing").is_none());
}

#[test]
fn headings_titles_and_lists_are_read() {
    assert_eq!(
        document_title(TREND),
        Some("トレンド分析 2026年9月1日（過去90日間）".to_string())
    );
    assert_eq!(document_title("no title\n## h2\n"), None);
    assert!(has_section(REVIEW, "技術的な成長"));
    assert!(!has_section(REVIEW, "存在しない"));
    assert_eq!(
        labeled_list_in_section(INSIGHT, "期間の概要"),
        vec![
            ("対象期間".to_string(), "2026/08/26 〜 2026/09/01".to_string()),
            ("セッション数".to_string(), "12".to_string()),
            ("プロジェクト数".to_string(), "2".to_string()),
        ]
    );
    let phases = subheadings_in_section(INSIGHT, "振り返り（ALACT モデル）");
    assert_eq!(phases.len(), 4);
    assert_eq!(phases[3], "D. 来週の実験（Trial）");
    let achievements = subsections_in_section(REVIEW, "主要な成果");
    assert_eq!(achievements.len(), 2);
    assert_eq!(achievements[0].heading, "1. nippo");
    assert_eq!(
        achievements[1].fields,
        vec![
            ("成果".to_string(), "安全な変換処理を実装した".to_string()),
            ("インパクト".to_string(), "生HTMLの実行を防いだ".to_string()),
        ]
    );
}

#[test]
fn numbers_are_read_from_cells() {
    assert_eq!(numeric_text("3,400"), Some("3400".to_string()));
    assert_eq!(numeric_text(" 20 (20%) "), Some("20".to_string()));
    assert_eq!(numeric_text("-1.5x"), Some("-1.5".to_string()));
    assert_eq!(numeric_text("2026/08/26"), None);
    assert_eq!(numeric_text("1〜2"), None);
    assert_eq!(numeric_text("abc"), Some(String::new()));
}

#[test]
fn unsafe_link_schemes_are_replaced() {
    assert_eq!(sanitize_link("javascript:alert(1)"), "#unsafe-link");
    assert_eq!(sanitize_link("data:text/html,x"), "#unsafe-link");
    assert_eq!(sanitize_link("https://example.com"), "https://example.com");
    assert_eq!(sanitize_link(" HTTP://example.com"), " HTTP://example.com");
    assert_eq!(sanitize_link("MailTo:a@b"), "MailTo:a@b");
    assert_eq!(sanitize_link("./a:b"), "./a:b");
    assert_eq!(sanitize_link("#top"), "#top");
    assert_eq!(sanitize_link("page.html"), "page.html");
}

#[test]
fn markdown_is_rendered_without_active_content() {
    let html = render_markdown(
        "# 安全性レポート\n\n<img src=\"https://example.com/tracker.png\" onerror=\"alert(1)\">\n\n[危険なリンク](javascript:alert(1))\n\n![外部画像](https://example.com/chart.png)\n",
    );
    assert!(html.contains("&lt;img src=\"https://example.com/tracker.png\""));
    assert!(html.contains("href=\"#unsafe-link\""));
    assert!(html.contains("画像: 外部画像"));
    assert!(!html.contains("<img"));
    assert!(!html.contains("javascript:"));
    assert!(render_markdown("| a | b |\n|---|---|\n| 1 | 2 |\n").contains("<table>"));
}

#[test]
fn labeled_cards_need_at_least_one_metric() {
    assert_eq!(render_labeled_cards(&[], "x"), None);
    assert_eq!(
        render_labeled_cards(&[("a<".to_string(), "1".to_string())], "L\""),
        Some(
            "<dl class=\"metrics-grid\" aria-label=\"L&quot;\"><div class=\"metric-card\"><dt>a&lt;</dt><dd>1</dd></div></dl>"
                .to_string()
        )
    );
    let table = vec![
        vec!["指標".to_string(), "値".to_string()],
        vec!["only one cell".to_string()],
        vec!["総数".to_string(), "3".to_string()],
    ];
    let cards = render_metric_cards(table).expect("cards");
    assert!(cards.contains("aria-label=\"定量データの視覚化\""));
    assert!(cards.contains("<dt>総数</dt><dd>3</dd>"));
    assert!(!cards.contains("only one cell"));
}

#[test]
fn chart_requests_follow_the_mode() {
    let trend = chart_requests(HtmlReportMode::Trend, TREND);
    assert_eq!(trend.len(), 3);
    assert_eq!(trend[0].aria_label, "期間の概要の視覚化");
    assert_eq!(trend[2].aria_label, "活動量の推移の視覚化");
    assert!(trend.iter().all(|r| r.table.is_some() && r.value_column.is_none()));
    let insight = chart_requests(HtmlReportMode::Insight, INSIGHT);
    assert_eq!(insight.len(), 2);
    assert_eq!(insight[0].value_column, Some(2));
    assert_eq!(insight[1].value_column, Some(1));
    assert_eq!(insight[1].aria_label, "ツール使用傾向の視覚化");
    assert!(chart_requests(HtmlReportMode::Review, REVIEW).is_empty());
}

#[test]
fn trend_panels_hold_the_drawn_charts_only() {
    let html = render_trend_visualizations(&[placed_chart("a"), None, placed_chart("c")]);
    assert_eq!(
        html,
        "<section class=\"visual-panel\"><h2>期間比較</h2><figure data-chart=\"a\"></figure></section><section class=\"visual-panel\"><h2>活動量の推移</h2><figure data-chart=\"c\"></figure></section>"
    );
    assert_eq!(render_trend_visualizations(&[]), "");
}

#[test]
fn trend_document_is_self_contained_and_places_requested_charts() {
    let requests = chart_requests(HtmlReportMode::Trend, TREND);
    let labels: Vec<&str> = requests.iter().map(|r| r.aria_label.as_str()).collect();
    assert_eq!(
        labels,
        vec!["期間の概要の視覚化", "ツール使用の変化の視覚化", "活動量の推移の視覚化"]
    );
    let charts: Vec<Option<String>> =
        requests.iter().map(|r| placed_chart(&r.aria_label)).collect();
    let html = render_document(HtmlReportMode::Trend, TREND, &charts);
    assert!(html.contains("<!doctype html>"));
    assert!(html.contains("<html lang=\"ja\">"));
    assert!(html.contains("name=\"viewport\""));
    assert!(html.contains("@media print"));
    assert!(html.contains("トレンド分析 2026年9月1日"));
    assert!(html.contains("<figure data-chart=\"期間の概要の視覚化\"></figure>"));
    assert!(html.contains("<figure data-chart=\"ツール使用の変化の視覚化\"></figure>"));
    assert!(html.contains("<figure data-chart=\"活動量の推移の視覚化\"></figure>"));
    assert!(html.contains("&lt;script&gt;alert(\"危険\")&lt;/script&gt;"));
    assert!(!html.contains("<script"));
    assert!(!html.contains("<link"));
    assert!(!html.contains("src=\"http"));
}

#[test]
fn insight_document_places_charts_and_alact_without_changing_prose() {
    let labels: Vec<String> = chart_requests(HtmlReportMode::Insight, INSIGHT)
        .into_iter()
        .map(|r| r.aria_label)
        .collect();
    assert_eq!(labels, vec!["プロジェクト別サマリーの視覚化", "ツール使用傾向の視覚化"]);
    let html = render_document(
        HtmlReportMode::Insight,
        INSIGHT,
        &[placed_chart("projects"), placed_chart("tools")],
    );
    assert!(html.contains("<figure data-chart=\"projects\"></figure>"));
    assert!(html.contains("<figure data-chart=\"tools\"></figure>"));
    assert!(html.contains("aria-label=\"期間の主要指標\""));
    assert!(html.contains("class=\"alact-flow\""));
    assert!(html.contains("<li>行動を振り返る（Looking back on the Action）</li>"));
    assert!(html.contains("確認できた事実を書く。"));
    assert!(html.contains("推測は推測として書く。"));
    assert!(html.contains("あなたの番"));
}

#[test]
fn review_markdown_presents_metrics_achievements_and_review_flow() {
    let html = render_document(HtmlReportMode::Review, REVIEW, &[]);
    assert!(html.contains("aria-label=\"定量データの視覚化\""));
    assert!(html.contains("class=\"achievement-grid\""));
    assert!(html.contains("1. nippo"));
    assert!(html.contains("<h3>nippo</h3>"));
    assert!(html.contains("<dt>成果</dt><dd>HTMLレポートを追加した</dd>"));
    assert!(html.contains("<dt>インパクト</dt><dd>期間の変化を把握しやすくした</dd>"));
    assert!(html.contains("class=\"review-flow\""));
    assert!(html.contains("技術的な成長"));
    assert!(html.contains("次期の目標"));
    assert!(html.contains("安全なHTML変換を理解した。"));
    assert!(html.contains("<dd>3,400</dd>"));
}

#[test]
fn review_flow_lists_only_present_sections() {
    let html = render_review_visualizations("# r\n\n## 課題と学び\n\n## 次期の目標\n");
    assert_eq!(
        html,
        "<section class=\"visual-panel\"><h2>レビューの流れ</h2><ol class=\"review-flow\"><li>課題と学び</li><li>次期の目標</li></ol></section>"
    );
    assert_eq!(render_visualizations(HtmlReportMode::Review, "# empty\n", &[]), "");
}

#[test]
fn renderer_escapes_raw_html_and_disables_active_or_external_embeds() {
    let md = "# 安全性レポート\n\n<img src=\"https://example.com/tracker.png\" onerror=\"alert(1)\">\n\n[危険なリンク](javascript:alert(1))\n\n![外部画像](https://example.com/chart.png)\n";
    let html = render_document(HtmlReportMode::Insight, md, &[None, None]);
    assert!(html.contains("&lt;img src=\"https://example.com/tracker.png\""));
    assert!(html.contains("href=\"#unsafe-link\""));
    assert!(html.contains("画像: 外部画像"));
    assert!(!html.contains("<img"));
    assert!(!html.contains("javascript:"));
}

#[test]
fn document_title_falls_back_and_is_escaped() {
    let html = render_document(HtmlReportMode::Review, "no heading\n", &[]);
    assert!(html.contains("<title>nippo report</title>"));
    let html = render_document(HtmlReportMode::Review, "# a <b> & c\n", &[]);
    assert!(html.contains("<title>a &lt;b&gt; &amp; c</title>"));
}

#[test]
fn assembled_document_wraps_the_given_body() {
    let html = assemble_document(HtmlReportMode::Review, "# 件名\n", &[], "<p>本文</p>");
    assert!(html.starts_with("<!doctype html>\n<html lang=\"ja\">"));
    assert!(html.contains("<title>件名</title>"));
    assert!(html.ends_with(
        "\n<article class=\"report-content\"><p>本文</p></article>\n</main>\n</body>\n</html>\n"
    ));
    let full = render_document(HtmlReportMode::Review, "# 件名\n", &[]);
    let body = render_markdown("# 件名\n");
    assert_eq!(full, assemble_document(HtmlReportMode::Review, "# 件名\n", &[], &body));
}

#[test]
fn markdown_body_keeps_tables_strikethrough_and_task_lists() {
    let html = render_markdown("| a | b |\n|---|:-:|\n| 1 | 2 |\n\n~~old~~\n\n- [x] done\n- [ ] todo\n");
    assert!(html.contains("<table>"));
    assert!(html.contains("<th style=\"text-align: center\">b</th>"));
    assert!(html.contains("<del>old</del>"));
    assert!(html.contains("checked=\"\""));
    assert!(html.contains("type=\"checkbox\"/>"));
    let html = render_markdown("## 見出し {#id}\n\n```rust\nfn main() {}\n```\n\n3. three\n");
    assert!(html.contains("<h2>見出し {#id}</h2>"));
    assert!(html.contains("<pre><code class=\"language-rust\">fn main() {}\n</code></pre>"));
    assert!(html.contains("<ol start=\"3\">"));
}

fn table(rows: &[&[&str]]) -> Vec<Vec<String>> {
    rows.iter().map(|r| r.iter().map(|c| c.to_string()).collect()).collect()
}

#[test]
fn comparison_chart_rows_keep_number_cells_only() {
    let t = table(&[
        &["指標", "前期", "中期", "後期"],
        &["セッション数", "10", "2,000", "30 回"],
        &["比率", "1/2", "3", "4"],
        &["範囲", "1〜2", "3", "4"],
        &["短い", "5"],
        &["ラベルだけ"],
        &["長い", "1", "2", "3", "4"],
    ]);
    let rows = nippo::charts::comparison_rows(&t).expect("header has four cells");
    let labels: Vec<&str> = rows.iter().map(|r| r.label.as_str()).collect();
    assert_eq!(labels, vec!["セッション数", "短い", "長い"]);
    assert_eq!(rows[0].displays, vec!["10", "2,000", "30 回"]);
    assert_eq!(rows[0].numbers, vec!["10", "2000", "30"]);
    assert_eq!(rows[1].numbers, vec!["5"]);
    assert_eq!(rows[2].displays, vec!["1", "2", "3"]);
    assert!(nippo::charts::comparison_rows(&table(&[&["a", "b", "c"], &["x", "1", "2"]])).is_none());
    assert!(nippo::charts::comparison_rows(&[]).is_none());
}

#[test]
fn horizontal_chart_rows_take_the_value_column() {
    let t = table(&[
        &["プロジェクト", "セッション", "割合"],
        &["nippo", "12", "40%"],
        &["other", "n/a", "1/3"],
        &["short"],
        &["tools", "-3.5", "x"],
    ]);
    let rows = nippo::charts::horizontal_rows(&t, 1);
    let picked: Vec<(&str, &str, &str)> = rows
        .iter()
        .map(|r| (r.label.as_str(), r.displays[0].as_str(), r.numbers[0].as_str()))
        .collect();
    assert_eq!(picked, vec![("nippo", "12", "12"), ("tools", "-3.5", "-3.5")]);
    assert!(nippo::charts::horizontal_rows(&[], 1).is_empty());
}

#[test]
fn pages_hold_no_script_link_or_img_in_any_mode() {
    let hostile = "# <script>t</script>\n\n## 定量データ\n\n| 指標 | 値 |\n|---|---|\n| <img src=x> | <link rel=x> |\n\n## 主要な成果\n\n### 1. <script>\n- **成果**: <img>\n\n## 期間の概要\n\n- **<script>**: <link>\n\n<script>alert(1)</script>\n\n![x](https://example.com/x.png)\n";
    for mode in [HtmlReportMode::Review, HtmlReportMode::Insight, HtmlReportMode::Trend] {
        let charts: Vec<Option<String>> = chart_requests(mode, hostile)
            .iter()
            .map(|r| placed_chart(&r.aria_label))
            .collect();
        let html = render_document(mode, hostile, &charts);
        assert!(!html.contains("<script"));
        assert!(!html.contains("<link"));
        assert!(!html.contains("<img"));
    }
}
